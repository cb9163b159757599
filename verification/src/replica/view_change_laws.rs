//! What a view change comes to: a majority that wants a view gets it.

use vstd::prelude::*;
use super::frames::frame_commit_up_to;
use super::model::ReplicaModel;
use super::parts::{DoViewChangeView, Status};
use crate::config::ConfigView;
use crate::ids::{ReplicaID, ViewNumber};
use crate::message::{MessageView, MessageViewFor};
use crate::state_machine::StateMachine;

verus! {

/// Whether a replica that changes views waits for what the others want and
/// report, and not for a log.
pub open spec fn gathers<SM: StateMachine>(s: ReplicaModel<SM>) -> bool {
    s.status == Status::ViewChange && s.catching_up is None
}

/// Whether `message` is the report of replica `id` for view `view_number`.
pub open spec fn is_report<SM: StateMachine>(
    message: MessageViewFor<SM>,
    id: ReplicaID,
    view_number: ViewNumber,
) -> bool {
    message matches MessageView::DoViewChange { view_number: v, replica_id, .. } && v == view_number
        && replica_id == id
}

/// Whether `mail` holds the report of replica `id` for view `view_number`, to
/// the primary of the view.
pub open spec fn reports_in<SM: StateMachine>(
    mail: Seq<(ReplicaID, MessageViewFor<SM>)>,
    config: ConfigView,
    id: ReplicaID,
    view_number: ViewNumber,
) -> bool {
    exists|n: int|
        0 <= n < mail.len() && (#[trigger] mail[n]).0 == config.primary_of(view_number)
            && is_report::<SM>(mail[n].1, id, view_number)
}

/// Whether a replica has reported for the view that it changes to: to the
/// primary of the view, or to itself.
pub open spec fn has_reported<SM: StateMachine>(s: ReplicaModel<SM>) -> bool {
    if s.is_primary() {
        s.do_view_change_from.contains_key(s.self_id)
    } else {
        reports_in::<SM>(s.outbox, s.config, s.self_id, s.view_number)
    }
}

/// A replica that has handled a `StartViewChange` for view `view_number` of
/// each of `senders`, one after another.
pub open spec fn asked_by<SM: StateMachine>(
    s: ReplicaModel<SM>,
    view_number: ViewNumber,
    senders: Seq<ReplicaID>,
    chunk: (SM::Chunk, bool),
) -> ReplicaModel<SM>
    decreases senders.len(),
{
    if senders.len() == 0 {
        s
    } else {
        asked_by(s, view_number, senders.drop_last(), chunk).on_message(
            MessageView::StartViewChange { view_number, replica_id: senders.last() },
            chunk,
        )
    }
}

/// What a replica has to show for the wishes of `senders` for view
/// `view_number`.
spec fn counts_wishes<SM: StateMachine>(
    s: ReplicaModel<SM>,
    t: ReplicaModel<SM>,
    view_number: ViewNumber,
    senders: Seq<ReplicaID>,
) -> bool {
    &&& t.config == s.config
    &&& t.self_id == s.self_id
    &&& t.view_number == view_number
    &&& t.status != Status::Recovering
    &&& gathers(t) ==> {
        &&& t.start_view_change_from == senders.to_set()
        &&& t.do_view_change_sent ==> has_reported(t)
        &&& 2 * (senders.to_set().len() + 1) > t.config.size() ==> t.do_view_change_sent
        &&& 2 * t.do_view_change_from.dom().len() <= t.config.size()
    }
}

/// What recording a report comes to.
proof fn recording<SM: StateMachine>(
    s: ReplicaModel<SM>,
    replica_id: ReplicaID,
    report: DoViewChangeView<SM::Input>,
)
    requires
        s.status == Status::ViewChange,
    ensures
        ({
            let t = s.record_do_view_change(replica_id, report);
            &&& t.config == s.config
            &&& t.self_id == s.self_id
            &&& t.view_number == s.view_number
            &&& t.status != Status::Recovering
            &&& gathers(t) ==> {
                &&& t == (ReplicaModel {
                    do_view_change_from: s.do_view_change_from.insert(replica_id, report),
                    ..s
                })
                &&& 2 * t.do_view_change_from.dom().len() <= t.config.size()
            }
        }),
{
    broadcast use frame_commit_up_to;

}

/// What a replica does once it has counted a wish.
proof fn reporting<SM: StateMachine>(s: ReplicaModel<SM>)
    requires
        gathers(s),
        s.do_view_change_sent ==> has_reported(s),
        2 * s.do_view_change_from.dom().len() <= s.config.size(),
    ensures
        counts_wish(s, s.maybe_send_do_view_change()),
{
    let sent = ReplicaModel { do_view_change_sent: true, ..s };
    let t = s.maybe_send_do_view_change();
    if s.is_primary() {
        recording(sent, s.self_id, sent.report());
    } else if t.do_view_change_sent && !s.do_view_change_sent {
        assert(t.outbox.last().0 == t.config.primary_of(t.view_number));
        assert(is_report::<SM>(t.outbox.last().1, t.self_id, t.view_number));
    }
}

spec fn counts_wish<SM: StateMachine>(s: ReplicaModel<SM>, t: ReplicaModel<SM>) -> bool {
    &&& t.config == s.config
    &&& t.self_id == s.self_id
    &&& t.view_number == s.view_number
    &&& t.status != Status::Recovering
    &&& gathers(t) ==> {
        &&& t.start_view_change_from == s.start_view_change_from
        &&& t.do_view_change_sent ==> has_reported(t)
        &&& 2 * (t.start_view_change_from.len() + 1) > t.config.size() ==> t.do_view_change_sent
        &&& 2 * t.do_view_change_from.dom().len() <= t.config.size()
    }
}

/// A replica starts to want a view with nothing counted.
proof fn wanting<SM: StateMachine>(s: ReplicaModel<SM>, view_number: ViewNumber)
    requires
        s.config.is_cluster(),
    ensures
        ({
            let t = s.start_view_change(view_number);
            &&& t.config == s.config
            &&& t.self_id == s.self_id
            &&& t.view_number == view_number
            &&& gathers(t)
            &&& !t.do_view_change_sent
            &&& t.start_view_change_from == Set::<ReplicaID>::empty()
            &&& t.do_view_change_from == Map::<ReplicaID, DoViewChangeView<SM::Input>>::empty()
        }),
{
}

/// The first wish for a later view.
proof fn first_wish_counts<SM: StateMachine>(
    s: ReplicaModel<SM>,
    view_number: ViewNumber,
    q: ReplicaID,
    chunk: (SM::Chunk, bool),
)
    requires
        s.config.is_cluster(),
        s.status != Status::Recovering,
        view_number > s.view_number,
    ensures
        counts_wishes(
            s,
            s.on_message(MessageView::StartViewChange { view_number, replica_id: q }, chunk),
            view_number,
            seq![q],
        ),
{
    reveal(ReplicaModel::handle);
    reveal(ReplicaModel::on_start_view_change);
    wanting(s, view_number);
    let changing = s.start_view_change(view_number);
    let counted = ReplicaModel {
        start_view_change_from: changing.start_view_change_from.insert(q),
        ..changing
    };
    reporting(counted);
    assert(seq![q].to_set() =~= Set::<ReplicaID>::empty().insert(q)) by {
        assert(seq![q][0] == q);
        assert(seq![q].contains(q));
    }
}

/// One more wish for the view that a replica changes to.
proof fn next_wish_counts<SM: StateMachine>(
    s: ReplicaModel<SM>,
    t: ReplicaModel<SM>,
    view_number: ViewNumber,
    senders: Seq<ReplicaID>,
    q: ReplicaID,
    chunk: (SM::Chunk, bool),
)
    requires
        counts_wishes(s, t, view_number, senders),
    ensures
        counts_wishes(
            s,
            t.on_message(MessageView::StartViewChange { view_number, replica_id: q }, chunk),
            view_number,
            senders.push(q),
        ),
{
    reveal(ReplicaModel::handle);
    reveal(ReplicaModel::on_start_view_change);
    assert(senders.push(q).to_set() =~= senders.to_set().insert(q)) by {
        let longer = senders.push(q);
        assert forall|p: ReplicaID| senders.to_set().insert(q).contains(p) implies longer.to_set().contains(
            p,
        ) by {
            if p == q {
                assert(longer[senders.len() as int] == q);
            } else {
                let i = choose|i: int| 0 <= i < senders.len() && senders[i] == p;
                assert(longer[i] == p);
            }
        }
    }
    if gathers(t) {
        let counted = ReplicaModel {
            start_view_change_from: t.start_view_change_from.insert(q),
            ..t
        };
        reporting(counted);
    }
}

proof fn wishes_count<SM: StateMachine>(
    s: ReplicaModel<SM>,
    view_number: ViewNumber,
    senders: Seq<ReplicaID>,
    chunk: (SM::Chunk, bool),
)
    requires
        s.config.is_cluster(),
        s.status != Status::Recovering,
        view_number > s.view_number,
        senders.len() > 0,
    ensures
        counts_wishes(s, asked_by(s, view_number, senders, chunk), view_number, senders),
    decreases senders.len(),
{
    let rest = senders.drop_last();
    let q = senders.last();
    assert(rest.push(q) =~= senders);
    if rest.len() == 0 {
        assert(senders =~= seq![q]);
        assert(asked_by(s, view_number, rest, chunk) == s);
        first_wish_counts(s, view_number, q, chunk);
    } else {
        wishes_count(s, view_number, rest, chunk);
        next_wish_counts(
            s,
            asked_by(s, view_number, rest, chunk),
            view_number,
            rest,
            q,
            chunk,
        );
    }
}

/// A replica joins a view that a majority wants, itself counted: once enough
/// distinct others have asked it for a later view, it is in that view, and, as
/// long as it gathers for it, it has reported its log to the primary of the
/// view, or counts its own report if that is itself. It waits for nobody else,
/// so whichever majority is up completes a view change.
pub proof fn a_view_that_a_majority_wants_is_reported_for<SM: StateMachine>(
    s: ReplicaModel<SM>,
    view_number: ViewNumber,
    senders: Seq<ReplicaID>,
    chunk: (SM::Chunk, bool),
)
    requires
        s.config.is_cluster(),
        s.status != Status::Recovering,
        view_number > s.view_number,
        senders.no_duplicates(),
        2 * (senders.len() + 1) > s.config.size(),
    ensures
        asked_by(s, view_number, senders, chunk).view_number == view_number,
        gathers(asked_by(s, view_number, senders, chunk)) ==> has_reported(
            asked_by(s, view_number, senders, chunk),
        ),
{
    wishes_count(s, view_number, senders, chunk);
    senders.unique_seq_to_set();
}

/// A replica that wants a view already, whatever made it want it and whomever
/// it has heard since, counts each other that asks for the view once, and
/// reports with the one that makes them a majority, itself counted.
pub proof fn a_wish_that_makes_a_majority_is_reported_for<SM: StateMachine>(
    s: ReplicaModel<SM>,
    replica_id: ReplicaID,
    chunk: (SM::Chunk, bool),
)
    requires
        gathers(s),
        !s.do_view_change_sent,
    ensures
        ({
            let t = s.on_message(
                MessageView::StartViewChange { view_number: s.view_number, replica_id },
                chunk,
            );
            let wanted_by = s.start_view_change_from.insert(replica_id);
            &&& t.view_number == s.view_number
            &&& gathers(t) ==> {
                &&& t.start_view_change_from == wanted_by
                &&& 2 * (wanted_by.len() + 1) > s.config.size() ==> has_reported(t)
                    && t.do_view_change_sent
            }
        }),
{
    reveal(ReplicaModel::handle);
    reveal(ReplicaModel::on_start_view_change);
    let counted = ReplicaModel {
        start_view_change_from: s.start_view_change_from.insert(replica_id),
        ..s
    };
    let sent = ReplicaModel { do_view_change_sent: true, ..counted };
    let t = counted.maybe_send_do_view_change();
    if s.is_primary() {
        recording(sent, s.self_id, sent.report());
    } else if t.do_view_change_sent {
        assert(t.outbox.last().0 == t.config.primary_of(t.view_number));
        assert(is_report::<SM>(t.outbox.last().1, t.self_id, t.view_number));
    }
}

/// Whether a replica that waits for reports lacks those of a majority.
pub open spec fn lacks_reports<SM: StateMachine>(s: ReplicaModel<SM>) -> bool {
    gathers(s) ==> 2 * s.do_view_change_from.dom().len() <= s.config.size()
}

/// A view starts with the report that makes them a majority: the primary of a
/// view counts each report once, and with those of a majority, its own among
/// them if it has reported, it takes part in the view, or asks for the log
/// that the view starts with. It waits for nobody else.
pub proof fn a_view_that_a_majority_reported_for_starts<SM: StateMachine>(
    s: ReplicaModel<SM>,
    replica_id: ReplicaID,
    report: DoViewChangeView<SM::Input>,
    chunk: (SM::Chunk, bool),
)
    requires
        gathers(s),
        s.is_primary(),
    ensures
        ({
            let t = s.on_message(
                MessageView::DoViewChange {
                    view_number: s.view_number,
                    replica_id,
                    last_normal_view: report.last_normal_view,
                    segment: report.segment,
                    commit_number: report.commit_number,
                },
                chunk,
            );
            &&& t.view_number == s.view_number
            &&& lacks_reports(t)
            &&& gathers(t) ==> t.do_view_change_from == s.do_view_change_from.insert(
                replica_id,
                report,
            )
        }),
{
    reveal(ReplicaModel::handle);
    reveal(ReplicaModel::on_do_view_change);
    recording(s, replica_id, report);
}

} // verus!
