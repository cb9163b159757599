use vstd::prelude::*;
use super::branches::{branch_joins, branch_ok, branches_join, committed_is_chosen};
use super::history::{
    blocked_stays, committed_length, committed_less, complete_stays, has_stays, prefix_refl,
    History, Recovery,
};
use super::lifecycle::{
    back_ok, bare_recovery, follows_recover, follows_restart, follows_restart_of_recovery,
};
use super::normal::bound;
use super::moves::{
    acked_grows, acknowledge_grows, ask_grows, declare_grows, grew_trans, grows_refl, grows_trans,
};
use super::rests::{
    back_as, can_come_back, committing, held_now, held_ok, holds_acked, later, of_view, rests,
    rests_now, rests_unmoved, unmoved_by_another, write_ok, write_stays, write_unmoved,
};
use super::idle::{follows_persisted, keeps_take_write};
use super::run::{in_view_of, Kept, Stored};
use super::safety::{
    asker_ok, asks_ok, change_ok, follows, leads_ok, log_ok, mail_ok, message_ok, outbox_ok,
    replica_ok,
};
use super::stays::{
    keeps_stays, mail_ok_stays, message_ok_stays, outbox_ok_stays, replica_ok_stays, unmoved,
    unmoved_ok,
};
use crate::ids::{OpNumber, ReplicaID, ViewNumber};
use crate::log::{LogEntry, PersistentView};
use crate::message::{MessageView, MessageViewFor};
use crate::replica::keeps::{advances, goes_forward};
use crate::replica::model::ReplicaModel;
use crate::replica::parts::Status;
use crate::replica::persistence_laws::{
    in_step, persisted_stays_in_step, restarted_replica_is_in_step, steps_stay_in_step,
    unsynced_write_changes_only_the_commit_number, write_brings_the_disk_up_to_date,
};
use crate::replica::steps::{persisted_advances, take_write_advances};
use crate::state_machine::StateMachine;

verus! {

/// Whether the acknowledgements in `mail` are of what their sender has
/// acknowledged.
pub open spec fn acks_left<SM: StateMachine>(
    h: History<SM::Input>,
    mail: Seq<(ReplicaID, MessageViewFor<SM>)>,
) -> bool {
    forall|k: int| 0 <= k < mail.len() ==> ack_left::<SM>(h, (#[trigger] mail[k]).1)
}

/// Whether `message`, if it is an acknowledgement, is of what its sender has
/// acknowledged.
pub open spec fn ack_left<SM: StateMachine>(
    h: History<SM::Input>,
    message: MessageViewFor<SM>,
) -> bool {
    message matches MessageView::PrepareOk { view_number, op_number, replica_id } ==> op_number
        <= h.ack(replica_id, view_number)
}

/// Whether the acknowledgements in `mail` of replica `i` are of what a write
/// of `state` and `log` holds.
pub open spec fn acks_within<SM: StateMachine>(
    h: History<SM::Input>,
    i: ReplicaID,
    state: PersistentView<SM::Input>,
    log: Seq<LogEntry<SM::Input>>,
    mail: Seq<(ReplicaID, MessageViewFor<SM>)>,
) -> bool {
    forall|k: int|
        0 <= k < mail.len() ==> ack_within::<SM>(h, i, state, log, (#[trigger] mail[k]).1)
}

pub open spec fn ack_within<SM: StateMachine>(
    h: History<SM::Input>,
    i: ReplicaID,
    state: PersistentView<SM::Input>,
    log: Seq<LogEntry<SM::Input>>,
    message: MessageViewFor<SM>,
) -> bool {
    message matches MessageView::PrepareOk { view_number, op_number, .. } ==> {
        ||| op_number == 0
        ||| view_number < state.last_normal_view && op_number <= h.acc(i, view_number)
        ||| view_number == state.last_normal_view && op_number <= waited_for(h, i, state, log)
    }
}

/// How many entries of the last view that replica `i` took part in a write
/// holds.
pub open spec fn waited_for<Op>(
    h: History<Op>,
    i: ReplicaID,
    state: PersistentView<Op>,
    log: Seq<LogEntry<Op>>,
) -> nat {
    if state.recovering {
        0
    } else if state.last_normal_view == state.view_number {
        log.len()
    } else {
        h.acc(i, state.last_normal_view)
    }
}

/// What a replica has come to: the whole logs of what its disk holds and of
/// the write that is out, the history once that write has landed, and the
/// history that the replica is in.
#[verifier::ext_equal]
pub struct Trail<Op> {
    pub log: Seq<LogEntry<Op>>,
    pub out: Seq<LogEntry<Op>>,
    pub taken: History<Op>,
    pub ahead: History<Op>,
}

impl<Op> Trail<Op> {
    /// The trail of replica `j` once the others have come to history `k`.
    pub open spec fn beside(self, k: History<Op>, j: ReplicaID) -> Self {
        Trail {
            taken: k.with_branch(self.taken, j),
            ahead: k.with_branch(self.ahead, j),
            ..self
        }
    }
}

/// What holds of replica `i` and its disk, in the history that the others
/// may know.
#[verifier::opaque]
pub open spec fn node_ok<SM: StateMachine>(
    h: History<SM::Input>,
    i: ReplicaID,
    s: ReplicaModel<SM>,
    disk: Stored<SM::Input>,
    trail: Trail<SM::Input>,
) -> bool {
    &&& branch_ok(h, trail.ahead, i)
    &&& replica_ok(trail.ahead, i, s)
    &&& s.inv()
    &&& in_step(s, disk.latest())
    &&& rests(h, i, disk.kept.shown)
    &&& write_ok(h, i, disk.kept.shown, disk.kept.state, trail.log)
    &&& later(disk.kept.shown, s.persistent_state())
    &&& mail_ok::<SM>(h, s.outbox_ready)
    &&& acks_left::<SM>(h, s.outbox_ready)
    &&& match disk.out {
        None => s.outstanding is None && s.outbox_waiting.len() == 0,
        Some(out) => out_ok(h, i, s, disk.kept, out, trail),
    }
}

/// What holds of the write of replica `i` that is out.
pub open spec fn out_ok<SM: StateMachine>(
    h: History<SM::Input>,
    i: ReplicaID,
    s: ReplicaModel<SM>,
    kept: Kept<SM::Input>,
    out: Kept<SM::Input>,
    trail: Trail<SM::Input>,
) -> bool {
    &&& branch_ok(h, trail.taken, i)
    &&& branch_ok(trail.taken, trail.ahead, i)
    &&& rests(trail.taken, i, out.shown)
    &&& write_ok(trail.taken, i, out.shown, out.state, trail.out)
    &&& later(kept.shown, out.shown)
    &&& later(out.shown, s.persistent_state())
    &&& later(PersistentView { commit_number: 0, ..kept.state }, out.state)
    &&& s.outstanding matches Some(outstanding) && {
        &&& outstanding.op_number == trail.out.len()
        &&& outstanding.last_normal_view == out.state.last_normal_view
    }
    // A replica that has recovered since leads no view that it recovered in.
    &&& out.state.recovering && s.status != Status::Recovering ==> s.view_number
        > out.state.view_number || h.config.primary_of(s.view_number) != i
    // What waits for the write acknowledges what it holds.
    &&& mail_ok::<SM>(trail.taken, s.outbox_waiting)
    &&& acks_within::<SM>(trail.taken, i, out.state, trail.out, s.outbox_waiting)
}

pub proof fn branch_refl<Op>(h: History<Op>, i: ReplicaID, shown: PersistentView<Op>)
    requires
        h.wf(),
        rests(h, i, shown),
    ensures
        branch_ok(h, h, i),
{
    grows_refl(h, i);
}

proof fn branch_trans<Op>(h: History<Op>, g: History<Op>, f: History<Op>, i: ReplicaID)
    requires
        branch_ok(h, g, i),
        branch_ok(g, f, i),
    ensures
        branch_ok(h, f, i),
{
    grows_trans(h, g, f, i);
}

/// A replica that steps goes on from what it was.
proof fn step_is_later<SM: StateMachine>(
    h: History<SM::Input>,
    g: History<SM::Input>,
    i: ReplicaID,
    s: ReplicaModel<SM>,
    t: ReplicaModel<SM>,
)
    requires
        branch_ok(h, g, i),
        replica_ok(h, i, s),
        s.inv(),
        replica_ok(g, i, t),
        t.inv(),
        goes_forward(s, t),
    ensures
        later(s.persistent_state(), t.persistent_state()),
{
    rests_now(h, i, s);
    rests_now(g, i, t);
}

/// The history that a step follows in.
proof fn step_to<SM: StateMachine>(
    h: History<SM::Input>,
    i: ReplicaID,
    s: ReplicaModel<SM>,
    t: ReplicaModel<SM>,
) -> (g: History<SM::Input>)
    requires
        h.wf(),
        replica_ok(h, i, s),
        s.inv(),
        follows(h, i, t),
        t.inv(),
        goes_forward(s, t),
    ensures
        branch_ok(h, g, i),
        replica_ok(g, i, t),
        later(s.persistent_state(), t.persistent_state()),
{
    let g = choose|g: History<SM::Input>|
        {
            &&& h.grows(g, i)
            &&& g.wf()
            &&& g.used == h.used
            &&& g.acknowledged == h.acknowledged
            &&& #[trigger] replica_ok(g, i, t)
        };
    rests_now(g, i, t);
    step_is_later(h, g, i, s, t);
    g
}

/// A replica steps in memory.
pub proof fn node_steps<SM: StateMachine>(
    h: History<SM::Input>,
    i: ReplicaID,
    s: ReplicaModel<SM>,
    t: ReplicaModel<SM>,
    disk: Stored<SM::Input>,
    trail: Trail<SM::Input>,
) -> (next: Trail<SM::Input>)
    requires
        h.wf(),
        node_ok(h, i, s, disk, trail),
        follows(trail.ahead, i, t),
        advances(s, t),
        t.inv(),
    ensures
        node_ok(h, i, t, disk, next),
{
    reveal(node_ok);
    reveal(advances);
    let g = step_to(trail.ahead, i, s, t);
    steps_stay_in_step(s, t, disk.latest());
    branch_trans(h, trail.ahead, g, i);
    if let Some(out) = disk.out {
        branch_trans(trail.taken, trail.ahead, g, i);
        rests_now(trail.ahead, i, s);
        rests_now(g, i, t);
    }
    Trail { ahead: g, ..trail }
}

/// A write that is taken holds what the replica does.
pub proof fn node_takes_write<SM: StateMachine>(
    h: History<SM::Input>,
    i: ReplicaID,
    s: ReplicaModel<SM>,
    disk: Stored<SM::Input>,
    trail: Trail<SM::Input>,
    skipped: bool,
) -> (next: Trail<SM::Input>)
    requires
        h.wf(),
        node_ok(h, i, s, disk, trail),
        s.outstanding is None,
        skipped ==> !s.write().sync,
    ensures
        node_ok(
            h,
            i,
            s.take_write(),
            Stored {
                out: Some(
                    Kept {
                        state: disk.kept.state.taking(s.write(), skipped),
                        shown: s.persistent_state(),
                    },
                ),
                ..disk
            },
            next,
        ),
{
    reveal(node_ok);
    let state = disk.kept.state.taking(s.write(), skipped);
    write_holds_the_state(s, disk.kept.state, skipped);
    let g = trail.ahead;
    let t = s.take_write();
    let shown = s.persistent_state();
    let mine = g.logs[i as int];
    keeps_take_write(g, i, s);
    take_write_advances(s);
    rests_now(g, i, s);
    branch_refl(g, i, shown);
    prefix_refl(mine);
    assert(g.ack(i, s.view_number) <= g.acc(i, s.view_number));
    held_now(g, i, shown);
    assert(state == committing(shown, state.commit_number));
    assert(write_ok(g, i, shown, state, mine));
    assert(mail_ok::<SM>(g, t.outbox_waiting) && asks_ok::<SM>(s.config, i, s.outbox)) by {
        reveal(outbox_ok);
    }
    assert forall|k: int| 0 <= k < t.outbox_waiting.len() implies ack_within::<SM>(
        g,
        i,
        state,
        mine,
        (#[trigger] t.outbox_waiting[k]).1,
    ) by {
        own_acks(g, i, s, s.outbox, k);
        if s.status == Status::Recovering {
            reveal(outbox_ok);
        }
    }
    Trail { out: mine, taken: g, ..trail }
}

/// A write that is applied, or skipped, holds the replica's state but for
/// its commit number.
proof fn write_holds_the_state<SM: StateMachine>(
    s: ReplicaModel<SM>,
    disk: PersistentView<SM::Input>,
    skipped: bool,
)
    requires
        s.inv(),
        in_step(s, disk),
        disk.commit_number <= s.commit_number,
        skipped ==> !s.write().sync,
    ensures
        ({
            let state = disk.taking(s.write(), skipped);
            &&& state == committing(s.persistent_state(), state.commit_number)
            &&& state.commit_number <= s.commit_number
            &&& in_step(s.take_write(), state)
        }),
{
    write_brings_the_disk_up_to_date(s, disk);
    if skipped {
        unsynced_write_changes_only_the_commit_number(s, disk);
    }
}

/// Every acknowledgement in the mail of replica `i` is its own, of what it
/// has held.
proof fn own_acks<SM: StateMachine>(
    h: History<SM::Input>,
    i: ReplicaID,
    s: ReplicaModel<SM>,
    mail: Seq<(ReplicaID, MessageViewFor<SM>)>,
    k: int,
)
    requires
        s.self_id == i,
        asks_ok::<SM>(s.config, i, mail),
        mail_ok::<SM>(h, mail),
        0 <= k < mail.len(),
    ensures
        mail[k].1 matches MessageView::PrepareOk { view_number, op_number, replica_id }
            ==> replica_id == i && op_number <= h.acc(i, view_number),
{
    assert(message_ok::<SM>(h, mail[k].0, mail[k].1));
    assert(asker_ok::<SM>(s.config, i, mail[k].1));
}

/// What a replica has acknowledged it has for good.
proof fn acked_ok<SM: StateMachine>(
    h: History<SM::Input>,
    g: History<SM::Input>,
    i: ReplicaID,
    s: ReplicaModel<SM>,
)
    requires
        h.wf(),
        h.grows(g, i),
        g == (History { acknowledged: g.acknowledged, ..h }),
        replica_ok(h, i, s),
    ensures
        replica_ok(g, i, s),
{
    acked_unmoved(h, g, i);
    unmoved_ok(h, g, i, i, s);
    outbox_ok_stays(h, g, i, s);
    let v = s.view_number;
    assert(leads_ok(g, i, s)) by {
        reveal(leads_ok);
        if s.leads() {
            assert(g.asked_of(v) == h.asked_of(v));
            assert(g.rounds_of(v) == h.rounds_of(v));
            assert(g.decl(v) == h.decl(v));
            complete_stays(h, g, i, h.logs[i as int].take(s.view_start_op as int), v as int);
        }
    }
}

proof fn acked_unmoved<Op>(h: History<Op>, g: History<Op>, i: ReplicaID)
    requires
        g == (History { acknowledged: g.acknowledged, ..h }),
    ensures
        unmoved(h, g, i),
{
    assert forall|u: ViewNumber| #[trigger] g.acc(i, u) == h.acc(i, u) by {}
    assert forall|u: ViewNumber| #[trigger] g.log_of(u) == h.log_of(u) by {}
}

/// Two histories, one further than the other, stay so if what is
/// acknowledged in both is the same.
proof fn acked_branch<Op>(
    x: History<Op>,
    y: History<Op>,
    g: History<Op>,
    f: History<Op>,
    i: ReplicaID,
)
    requires
        branch_ok(x, y, i),
        g == (History { acknowledged: g.acknowledged, ..x }),
        f == (History { acknowledged: g.acknowledged, ..y }),
        f.wf(),
    ensures
        branch_ok(g, f, i),
{
    assert forall|q: ReplicaID, u: ViewNumber| #[trigger] g.acc(q, u) == x.acc(q, u) by {}
    assert forall|q: ReplicaID, u: ViewNumber| #[trigger] f.acc(q, u) == y.acc(q, u) by {}
    assert forall|u: ViewNumber| #[trigger] g.log_of(u) == x.log_of(u) by {}
    assert forall|u: ViewNumber| #[trigger] f.log_of(u) == y.log_of(u) by {}
    assert forall|u: ViewNumber| #[trigger] f.decl(u) == y.decl(u) && g.decl(u) == x.decl(u) by {}
    assert forall|u: ViewNumber| #[trigger]
        f.rounds_of(u) == y.rounds_of(u) && g.rounds_of(u) == x.rounds_of(u) by {}
    assert forall|u: ViewNumber| #[trigger]
        f.asked_of(u) == y.asked_of(u) && g.asked_of(u) == x.asked_of(u) by {}
    assert forall|q: ReplicaID, u: ViewNumber| #[trigger] f.ack(q, u) == g.ack(q, u) by {}
    assert forall|u: ViewNumber| #[trigger] g.started(u) implies f.started(u) by {
        assert(x.started(u));
    }
    assert forall|q: ReplicaID, u: ViewNumber|
        #![trigger f.acc(q, u)]
        f.acc(q, u) >= g.acc(q, u) && (q != i || u < g.at[i as int] ==> f.acc(q, u) == g.acc(
            q,
            u,
        )) by {
        assert(y.acc(q, u) >= x.acc(q, u));
    }
    if let Some(nonce) = f.recovering[i as int] {
        assert forall|u: ViewNumber| #[trigger] f.acc(i, u) == g.acc(i, u) by {
            assert(y.acc(i, u) == x.acc(i, u));
        }
    }
}

/// The write that is out lands, and is handed back.
pub proof fn node_lands<SM: StateMachine>(
    h: History<SM::Input>,
    i: ReplicaID,
    s: ReplicaModel<SM>,
    disk: Stored<SM::Input>,
    trail: Trail<SM::Input>,
) -> (to: (History<SM::Input>, Trail<SM::Input>))
    requires
        h.wf(),
        node_ok(h, i, s, disk, trail),
        s.outstanding is Some,
    ensures
        h.grows(to.0, i),
        to.0.wf(),
        to.0.used == h.used,
        node_ok(to.0, i, s.persisted(), Stored { kept: disk.out->0, out: None }, to.1),
{
    reveal(node_ok);
    let out = disk.out->0;
    let taken = trail.taken;
    let v = out.state.last_normal_view;
    let n = waited_for(taken, i, out.state, trail.out);
    let g = taken.acknowledge(i, v, n);
    let ahead = History { acknowledged: g.acknowledged, ..trail.ahead };
    acknowledge_grows(taken, i, v, n);
    grows_trans(h, taken, g, i);
    assert forall|q: ReplicaID, u: ViewNumber|
        #![trigger ahead.ack(q, u)]
        trail.ahead.ack(q, u) <= ahead.ack(q, u) <= trail.ahead.acc(q, u) && (q != i
            ==> ahead.ack(q, u) == trail.ahead.ack(q, u)) by {
        assert(ahead.ack(q, u) == g.ack(q, u));
        assert(trail.ahead.ack(q, u) == taken.ack(q, u));
        assert(trail.ahead.acc(q, u) >= taken.acc(q, u));
    }
    acked_grows(trail.ahead, ahead, i);
    acked_ok(trail.ahead, ahead, i, s);
    acked_branch(taken, trail.ahead, g, ahead, i);
    assert(s.leads() && (s.outstanding->0).last_normal_view == s.view_number ==> (
    s.outstanding->0).op_number <= ahead.ack(i, s.view_number)) by {
        if s.leads() && (s.outstanding->0).last_normal_view == s.view_number {
            rests_now(trail.ahead, i, s);
            assert(!out.state.recovering);
            assert(n == trail.out.len());
            assert(ahead.ack(i, v) == g.ack(i, v));
        }
    }
    follows_persisted(ahead, i, s);
    persisted_advances(s);
    persisted_stays_in_step(s, out.state);
    frame_persisted(s);
    let t = s.persisted();
    let f = step_to(ahead, i, s, t);
    branch_trans(g, ahead, f, i);
    acked_unmoved(taken, g, i);
    rests_unmoved(taken, g, i, i, out.shown);
    landed_is_held(taken, i, out.state, trail.out);
    assert(write_ok(g, i, out.shown, out.state, trail.out)) by {
        if of_view(out.shown, out.state) {
            complete_stays(taken, g, i, trail.out, v as int);
        }
    }
    landed_mail_ok(h, i, s, disk.kept, out, trail);
    (g, Trail { log: trail.out, ahead: f, ..trail })
}

/// The mail that waits for no write any more once the one that is out has
/// landed.
proof fn landed_mail_ok<SM: StateMachine>(
    h: History<SM::Input>,
    i: ReplicaID,
    s: ReplicaModel<SM>,
    kept: Kept<SM::Input>,
    out: Kept<SM::Input>,
    trail: Trail<SM::Input>,
)
    requires
        h.wf(),
        replica_ok(trail.ahead, i, s),
        mail_ok::<SM>(h, s.outbox_ready),
        acks_left::<SM>(h, s.outbox_ready),
        out_ok(h, i, s, kept, out, trail),
    ensures
        ({
            let g = trail.taken.acknowledge(
                i,
                out.state.last_normal_view,
                waited_for(trail.taken, i, out.state, trail.out),
            );
            &&& mail_ok::<SM>(g, s.outbox_ready + s.outbox_waiting)
            &&& acks_left::<SM>(g, s.outbox_ready + s.outbox_waiting)
        }),
{
    let taken = trail.taken;
    let v = out.state.last_normal_view;
    let n = waited_for(taken, i, out.state, trail.out);
    let g = taken.acknowledge(i, v, n);
    acknowledge_grows(taken, i, v, n);
    grows_trans(h, taken, g, i);
    mail_ok_stays::<SM>(h, g, i, s.outbox_ready);
    mail_ok_stays::<SM>(taken, g, i, s.outbox_waiting);
    assert(s.self_id == i && asks_ok::<SM>(s.config, i, s.outbox_waiting)) by {
        reveal(log_ok);
        reveal(outbox_ok);
    }
    let all = s.outbox_ready + s.outbox_waiting;
    assert forall|k: int| 0 <= k < all.len() implies message_ok::<SM>(
        g,
        (#[trigger] all[k]).0,
        all[k].1,
    ) && ack_left::<SM>(g, all[k].1) by {
        if k < s.outbox_ready.len() {
            assert(all[k] == s.outbox_ready[k]);
            assert(message_ok::<SM>(g, s.outbox_ready[k].0, s.outbox_ready[k].1));
            assert(ack_left::<SM>(h, s.outbox_ready[k].1));
            if let MessageView::PrepareOk { view_number, op_number, replica_id } = all[k].1 {
                assert(g.ack(replica_id, view_number) >= h.ack(replica_id, view_number));
            }
        } else {
            let at = k - s.outbox_ready.len();
            assert(all[k] == s.outbox_waiting[at]);
            assert(message_ok::<SM>(g, s.outbox_waiting[at].0, s.outbox_waiting[at].1));
            assert(ack_within::<SM>(taken, i, out.state, trail.out, s.outbox_waiting[at].1));
            own_acks(taken, i, s, s.outbox_waiting, at);
            if let MessageView::PrepareOk { view_number, op_number, replica_id } = all[k].1 {
                assert(g.ack(i, view_number) >= taken.ack(i, view_number));
            }
        }
    }
}

/// What handing a write back does to it and to what waited for it.
proof fn frame_persisted<SM: StateMachine>(s: ReplicaModel<SM>)
    requires
        s.outstanding is Some,
    ensures
        s.persisted().outstanding is None,
        s.persisted().outbox_waiting.len() == 0,
        s.persisted().outbox_ready == s.outbox_ready + s.outbox_waiting,
{
    broadcast use {
        crate::replica::frames::frame_apply_committed,
        crate::replica::frames::frame_commit_up_to,
    };

    reveal(ReplicaModel::persisted);
}

/// The others would come to know a replica as it is if the write that is out
/// landed.
proof fn out_shows<SM: StateMachine>(
    h: History<SM::Input>,
    i: ReplicaID,
    s: ReplicaModel<SM>,
    kept: Kept<SM::Input>,
    out: Kept<SM::Input>,
    trail: Trail<SM::Input>,
)
    requires
        h.wf(),
        branch_ok(h, trail.ahead, i),
        replica_ok(trail.ahead, i, s),
        s.inv(),
        later(kept.shown, s.persistent_state()),
        out_ok(h, i, s, kept, out, trail),
    ensures
        out_ok(
            h,
            i,
            s,
            kept,
            Kept { shown: s.persistent_state(), ..out },
            Trail { taken: trail.ahead, ..trail },
        ),
{
    let g = trail.ahead;
    let shown = s.persistent_state();
    let taken = trail.taken;
    rests_now(g, i, s);
    branch_refl(g, i, shown);
    write_stays(taken, g, i, out.shown, shown, out.state, trail.out);
    mail_ok_stays::<SM>(taken, g, i, s.outbox_waiting);
    acks_stay_within::<SM>(taken, g, i, out.state, trail.out, s.outbox_waiting);
}

/// What a write that lands holds is what the replica acknowledges.
proof fn landed_is_held<Op>(
    h: History<Op>,
    i: ReplicaID,
    state: PersistentView<Op>,
    log: Seq<LogEntry<Op>>,
)
    requires
        h.wf(),
        held_ok(h, i, state, log),
        waited_for(h, i, state, log) <= h.acc(i, state.last_normal_view),
    ensures
        held_ok(
            h.acknowledge(i, state.last_normal_view, waited_for(h, i, state, log)),
            i,
            state,
            log,
        ),
{
    let v = state.last_normal_view;
    let n = waited_for(h, i, state, log);
    let g = h.acknowledge(i, v, n);
    acknowledge_grows(h, i, v, n);
    if !state.recovering {
        assert(g.acc(i, v) == h.acc(i, v));
        assert(g.log_of(v) == h.log_of(v));
        complete_stays(h, g, i, log, v as int);
        if v < state.view_number {
            keeps_stays(h, g, i, log, v, h.acc(i, v));
        }
        assert forall|u: ViewNumber| (#[trigger] g.ack(i, u)) > 0 implies u <= v by {
            assert(u > v ==> h.ack(i, u) == g.ack(i, u));
        }
        assert forall|u: ViewNumber, m: nat| 1 <= m <= g.ack(i, u) implies #[trigger] g.settles(
            log,
            u,
            m,
        ) by {
            assert(g.ack(i, u) > 0);
            if u < v || m <= n {
                holds_acked(g, log, v, n, u, m);
            } else {
                assert(h.settles(log, u, m));
                if h.has(log, u, m) {
                    has_stays(h, g, i, log, u, m);
                } else {
                    blocked_stays(h, g, i, u, m);
                }
            }
        }
    }
}

/// The others come to know a replica as it is.
pub proof fn node_shows<SM: StateMachine>(
    h: History<SM::Input>,
    i: ReplicaID,
    s: ReplicaModel<SM>,
    disk: Stored<SM::Input>,
    trail: Trail<SM::Input>,
)
    requires
        h.wf(),
        node_ok(h, i, s, disk, trail),
    ensures
        h.grows(trail.ahead, i),
        trail.ahead.wf(),
        trail.ahead.used == h.used,
        node_ok(
            trail.ahead,
            i,
            s,
            disk.showing(s.persistent_state()),
            Trail { taken: trail.ahead, ..trail },
        ),
{
    reveal(node_ok);
    let g = trail.ahead;
    let shown = s.persistent_state();
    rests_now(g, i, s);
    branch_refl(g, i, shown);
    write_stays(h, g, i, disk.kept.shown, shown, disk.kept.state, trail.log);
    mail_ok_stays::<SM>(h, g, i, s.outbox_ready);
    assert(acks_left::<SM>(g, s.outbox_ready)) by {
        assert forall|k: int| 0 <= k < s.outbox_ready.len() implies ack_left::<SM>(
            g,
            (#[trigger] s.outbox_ready[k]).1,
        ) by {
            assert(ack_left::<SM>(h, s.outbox_ready[k].1));
            if let MessageView::PrepareOk { view_number, op_number, replica_id } =
                s.outbox_ready[k].1 {
                assert(g.ack(replica_id, view_number) == h.ack(replica_id, view_number));
            }
        }
    }
    if let Some(out) = disk.out {
        out_shows(h, i, s, disk.kept, out, trail);
    }
}

/// A replica that is in the view that its disk records may be known as it
/// is.
pub proof fn node_refreshes<SM: StateMachine>(
    h: History<SM::Input>,
    i: ReplicaID,
    s: ReplicaModel<SM>,
    disk: Stored<SM::Input>,
    trail: Trail<SM::Input>,
) -> (to: (History<SM::Input>, Trail<SM::Input>))
    requires
        h.wf(),
        node_ok(h, i, s, disk, trail),
    ensures
        h.grows(to.0, i),
        to.0.wf(),
        to.0.used == h.used,
        node_ok(to.0, i, s, disk.refreshed(s.persistent_state()), to.1),
{
    let now = s.persistent_state();
    grows_refl(h, i);
    if in_view_of(now, disk.kept.state) {
        assert(disk.out matches Some(out) ==> in_view_of(now, out.state)) by {
            reveal(node_ok);
        }
        node_shows(h, i, s, disk, trail);
        assert(disk.refreshed(now) == disk.showing(now));
        (trail.ahead, Trail { taken: trail.ahead, ..trail })
    } else if disk.out is Some && in_view_of(now, (disk.out->0).state) {
        assert(node_ok(
            h,
            i,
            s,
            disk.refreshed(now),
            Trail { taken: trail.ahead, ..trail },
        )) by {
            reveal(node_ok);
            out_shows(h, i, s, disk.kept, disk.out->0, trail);
        }
        (h, Trail { taken: trail.ahead, ..trail })
    } else {
        assert(disk.refreshed(now) == disk);
        (h, trail)
    }
}

/// A replica whose mail has left it, as far as its state goes.
proof fn emptied_ok<SM: StateMachine>(
    h: History<SM::Input>,
    i: ReplicaID,
    s: ReplicaModel<SM>,
    t: ReplicaModel<SM>,
)
    requires
        replica_ok(h, i, s),
        t == (ReplicaModel {
            round_unsent: false,
            outbox_early: Seq::empty(),
            outbox_ready: t.outbox_ready,
            ..s
        }),
        t.outbox_ready == s.outbox_ready || t.outbox_ready.len() == 0,
    ensures
        replica_ok(h, i, t),
{
    reveal(outbox_ok);
    reveal(log_ok);
    reveal(change_ok);
    reveal(leads_ok);
}

/// The mail of a replica leaves it.
pub proof fn node_sends<SM: StateMachine>(
    h: History<SM::Input>,
    i: ReplicaID,
    s: ReplicaModel<SM>,
    t: ReplicaModel<SM>,
    disk: Stored<SM::Input>,
    trail: Trail<SM::Input>,
)
    requires
        h.wf(),
        node_ok(h, i, s, disk, trail),
        t == (ReplicaModel {
            round_unsent: false,
            outbox_early: Seq::empty(),
            outbox_ready: t.outbox_ready,
            ..s
        }),
        t.outbox_ready == s.outbox_ready || t.outbox_ready.len() == 0,
    ensures
        node_ok(h, i, t, disk, trail),
{
    reveal(node_ok);
    assert forall|op_number: int| #[trigger] t.entry(op_number) == s.entry(op_number) by {}
    emptied_ok(trail.ahead, i, s, t);
}

/// The rounds of confirmations that a replica has started leave it.
pub proof fn node_asks<SM: StateMachine>(
    h: History<SM::Input>,
    i: ReplicaID,
    s: ReplicaModel<SM>,
    disk: Stored<SM::Input>,
    trail: Trail<SM::Input>,
)
    requires
        h.wf(),
        trail.taken == h,
        trail.ahead == h,
        !s.round_unsent,
        node_ok(h, i, s, disk, trail),
    ensures
        h.grows(h.ask(i), i),
        h.ask(i).wf(),
        h.ask(i).used == h.used,
        node_ok(
            h.ask(i),
            i,
            s,
            disk,
            Trail { taken: h.ask(i), ahead: h.ask(i), ..trail },
        ),
{
    reveal(node_ok);
    let g = h.ask(i);
    ask_grows(h, i);
    assert forall|q: ReplicaID, u: ViewNumber| #[trigger] g.ack(q, u) == h.ack(q, u) by {}
    assert(unmoved(h, g, i)) by {
        assert forall|u: ViewNumber| #[trigger] g.acc(i, u) == h.acc(i, u) by {}
        assert forall|u: ViewNumber| #[trigger] g.log_of(u) == h.log_of(u) by {}
    }
    asked_ok(h, i, s);
    rests_unmoved(h, g, i, i, disk.kept.shown);
    branch_refl(g, i, disk.kept.shown);
    write_unmoved(h, g, i, i, disk.kept.shown, disk.kept.state, trail.log);
    mail_ok_stays::<SM>(h, g, i, s.outbox_ready);
    assert forall|k: int| 0 <= k < s.outbox_ready.len() implies ack_left::<SM>(
        g,
        (#[trigger] s.outbox_ready[k]).1,
    ) by {
        assert(ack_left::<SM>(h, s.outbox_ready[k].1));
    }
    if let Some(out) = disk.out {
        rests_unmoved(h, g, i, i, out.shown);
        write_unmoved(h, g, i, i, out.shown, out.state, trail.out);
        mail_ok_stays::<SM>(h, g, i, s.outbox_waiting);
        acks_stay_within::<SM>(h, g, i, out.state, trail.out, s.outbox_waiting);
    }
}

/// A replica whose rounds have left it is sound.
proof fn asked_ok<SM: StateMachine>(h: History<SM::Input>, i: ReplicaID, s: ReplicaModel<SM>)
    requires
        h.wf(),
        replica_ok(h, i, s),
        !s.round_unsent,
    ensures
        replica_ok(h.ask(i), i, s),
{
    let g = h.ask(i);
    let v = s.view_number;
    assert(i < h.config.size() && s.self_id == i) by {
        reveal(log_ok);
    }
    ask_grows(h, i);
    assert(unmoved(h, g, i)) by {
        assert forall|u: ViewNumber| #[trigger] g.acc(i, u) == h.acc(i, u) by {}
        assert forall|u: ViewNumber| #[trigger] g.log_of(u) == h.log_of(u) by {}
    }
    unmoved_ok(h, g, i, i, s);
    outbox_ok_stays(h, g, i, s);
    assert(leads_ok(g, i, s)) by {
        reveal(leads_ok);
        assert(g.asked_of(v) >= h.asked_of(v));
        assert(g.decl(v) == h.decl(v));
        assert(g.rounds_of(v) == h.rounds_of(v));
        if s.leads() {
            complete_stays(h, g, i, h.logs[i as int].take(s.view_start_op as int), v as int);
        }
    }
}

/// A replica that came back is sound, and so is its disk.
proof fn node_is_back<SM: StateMachine>(
    h: History<SM::Input>,
    g: History<SM::Input>,
    f: History<SM::Input>,
    i: ReplicaID,
    t: ReplicaModel<SM>,
    state: PersistentView<SM::Input>,
    log: Seq<LogEntry<SM::Input>>,
    applied: OpNumber,
    used: Set<(ReplicaID, u64)>,
)
    requires
        back_ok(h, g, f, i, t, state, back_as(state, applied), log, used),
        in_step(t, state),
    ensures
        node_ok(
            g,
            i,
            t,
            Stored::with(state, applied),
            Trail { log, out: log, taken: f, ahead: f },
        ),
{
    reveal(node_ok);
}

/// A replica loses power, and comes back.
pub proof fn node_restarts<SM: StateMachine>(
    h: History<SM::Input>,
    i: ReplicaID,
    s: ReplicaModel<SM>,
    disk: Stored<SM::Input>,
    trail: Trail<SM::Input>,
    landed: bool,
    machine: SM::State,
    applied: OpNumber,
    nonce: u64,
) -> (to: (History<SM::Input>, Trail<SM::Input>))
    requires
        h.wf(),
        node_ok(h, i, s, disk, trail),
        can_come_back(
            disk.survivor(landed).shown,
            disk.survivor(landed).state,
            s.commit_number,
            applied,
        ),
        disk.survivor(landed).state.recovering ==> !h.used.contains((i, nonce)),
        ReplicaModel::<SM>::can_restart(machine, applied, disk.survivor(landed).state),
        ReplicaModel::<SM>::restart(
            i,
            h.config,
            machine,
            applied,
            disk.survivor(landed).state,
            nonce,
        ).fits,
    ensures
        h.grew(to.0, i),
        to.0.moment == h.moment,
        to.0.wf(),
        to.0.used == if disk.survivor(landed).state.recovering {
            h.used.insert((i, nonce))
        } else {
            h.used
        },
        node_ok(
            to.0,
            i,
            ReplicaModel::<SM>::restart(
                i,
                h.config,
                machine,
                applied,
                disk.survivor(landed).state,
                nonce,
            ),
            Stored::with(disk.survivor(landed).state, applied),
            to.1,
        ),
{
    reveal(node_ok);
    let kept = disk.survivor(landed);
    let (shown, state) = (kept.shown, kept.state);
    let (x, written) = if disk.out is Some && landed {
        (trail.taken, trail.out)
    } else {
        (h, trail.log)
    };
    grows_refl(h, i);
    assert(h.grows(x, i) && x.wf() && x.used == h.used && rests(x, i, shown) && write_ok(
        x,
        i,
        shown,
        state,
        written,
    ));
    let t = ReplicaModel::<SM>::restart(i, h.config, machine, applied, state, nonce);
    restarted_replica_is_in_step::<SM>(i, h.config, machine, applied, state, nonce);
    if shown.recovering {
        let (y, recovery, log) = keeps_checkpoint(x, i, shown, s, trail.ahead, applied, nonce);
        let (g, f) = follows_restart_of_recovery::<SM>(
            y,
            i,
            shown,
            machine,
            applied,
            state,
            written,
            recovery,
            log,
        );
        grows_trans(h, x, y, i);
        grew_trans(h, y, g, i);
        node_is_back(y, g, f, i, t, state, written, applied, g.used);
        (g, Trail { log: written, out: written, taken: f, ahead: f })
    } else {
        let log = if shown.last_normal_view < shown.view_number {
            held_now(x, i, shown);
            assert(state == committing(shown, state.commit_number));
            x.logs[i as int]
        } else {
            written
        };
        let (g, f) = follows_restart::<SM>(x, i, shown, machine, applied, state, log, nonce);
        grew_trans(h, x, g, i);
        node_is_back(x, g, f, i, t, state, log, applied, g.used);
        (g, Trail { log, out: log, taken: f, ahead: f })
    }
}

/// What the state machine of a replica that is to recover keeps was chosen.
proof fn keeps_checkpoint<SM: StateMachine>(
    h: History<SM::Input>,
    i: ReplicaID,
    shown: PersistentView<SM::Input>,
    s: ReplicaModel<SM>,
    g: History<SM::Input>,
    applied: OpNumber,
    nonce: u64,
) -> (to: (History<SM::Input>, Recovery, Seq<LogEntry<SM::Input>>))
    requires
        h.wf(),
        rests(h, i, shown),
        shown.recovering,
        branch_ok(h, g, i),
        replica_ok(g, i, s),
        s.inv(),
        applied <= shown.commit_number || applied <= s.commit_number,
        !h.used.contains((i, nonce)),
    ensures
        h.grows(to.0, i),
        to.0.wf(),
        to.0.used == h.used,
        to.0.moment == h.moment,
        rests(to.0, i, shown),
        to.0.kept_ok(to.1, to.2),
        to.1.nonce == nonce,
        to.2.len() == applied,
        applied < usize::MAX,
{
    grows_refl(h, i);
    let n = applied as nat;
    rests_now(g, i, s);
    if n == 0 {
        (h, bare_recovery(nonce), Seq::empty())
    } else if applied <= shown.commit_number {
        let log = h.logs[i as int];
        let old = h.recovering[i as int]->0;
        let recovery = Recovery { nonce, kept: n, ..old };
        let kept = log.take(n as int);
        assert(h.has(kept, old.view_number, n)) by {
            assert(h.has(log, old.view_number, old.kept));
            assert(kept =~= h.log_of(old.view_number).take(old.kept as int).take(n as int));
            assert(h.log_of(old.view_number).take(old.kept as int).take(n as int)
                =~= h.log_of(old.view_number).take(n as int));
            assert(kept.take(n as int) =~= kept);
        }
        assert(h.all_acked(old.quorum, old.view_number, n)) by {
            assert forall|id: ReplicaID| #[trigger] old.quorum.contains(id) implies h.ack(
                id,
                old.view_number,
            ) >= n by {
                assert(h.ack(id, old.view_number) >= old.kept);
            }
        }
        (h, recovery, kept)
    } else {
        let mine = g.logs[i as int];
        assert(mine.len() == s.op_number() && s.commit_number <= s.op_number());
        // A replica that still recovers has learned nothing.
        assert(s.status != Status::Recovering);
        assert(g.committed(mine, s.commit_number as nat, bound(s))) by {
            reveal(log_ok);
        }
        committed_length(g, mine, s.commit_number as nat, bound(s));
        committed_less(g, mine, s.commit_number as nat, n, bound(s));
        let u = committed_is_chosen(h, g, i, mine, n, bound(s));
        let q = choose|q: Set<ReplicaID>| h.is_quorum(q) && #[trigger] h.all_acked(q, u, n);
        let recovery = Recovery { nonce, kept: n, view_number: u, quorum: q };
        let kept = mine.take(n as int);
        assert(kept.take(n as int) =~= kept);
        assert(h.has(kept, u, n));
        if h.decl(u) < n {
            assert(g.decl(u) >= n);
            assert(h.config.primary_of(u) == i);
            declare_grows(h, i, u, n);
            let y = h.declare(u, n);
            declared_rests(h, i, u, n, shown);
            has_stays(h, y, i, kept, u, n);
            assert(y.all_acked(q, u, n)) by {
                assert forall|id: ReplicaID| #[trigger] q.contains(id) implies y.ack(id, u) >= n by {
                    assert(h.ack(id, u) >= n);
                }
            }
            (y, recovery, kept)
        } else {
            (h, recovery, kept)
        }
    }
}

proof fn declared_rests<Op>(
    h: History<Op>,
    i: ReplicaID,
    u: ViewNumber,
    n: nat,
    shown: PersistentView<Op>,
)
    requires
        h.wf(),
        h.grows(h.declare(u, n), i),
        rests(h, i, shown),
    ensures
        rests(h.declare(u, n), i, shown),
{
    let y = h.declare(u, n);
    assert(unmoved(h, y, i)) by {
        assert forall|v: ViewNumber| #[trigger] y.acc(i, v) == h.acc(i, v) by {}
        assert forall|v: ViewNumber| #[trigger] y.log_of(v) == h.log_of(v) by {}
    }
    rests_unmoved(h, y, i, i, shown);
}

/// A replica loses its disk, and recovers.
pub proof fn node_recovers<SM: StateMachine>(
    h: History<SM::Input>,
    i: ReplicaID,
    s: ReplicaModel<SM>,
    disk: Stored<SM::Input>,
    trail: Trail<SM::Input>,
    machine: SM::State,
    v: ViewNumber,
    nonce: u64,
) -> (to: (History<SM::Input>, Trail<SM::Input>))
    requires
        h.wf(),
        node_ok(h, i, s, disk, trail),
        v >= disk.kept.shown.view_number,
        !h.used.contains((i, nonce)),
    ensures
        h.grew(to.0, i),
        to.0.moment == h.moment,
        to.0.wf(),
        to.0.used == h.used.insert((i, nonce)),
        node_ok(
            to.0,
            i,
            ReplicaModel::<SM>::recover(i, h.config, machine, v, nonce),
            Stored::with(
                PersistentView { view_number: v, recovering: true, ..PersistentView::empty() },
                0,
            ),
            to.1,
        ),
{
    reveal(node_ok);
    follows_recover::<SM>(h, i, disk.kept.shown, machine, v, nonce);
    let g = h.lose(i, v, bare_recovery(nonce), Seq::empty());
    let t = ReplicaModel::<SM>::recover(i, h.config, machine, v, nonce);
    let state = PersistentView::<SM::Input> {
        view_number: v,
        recovering: true,
        ..PersistentView::empty()
    };
    let none = Seq::<LogEntry<SM::Input>>::empty();
    assert(none.skip(0) =~= none);
    rests_now(g, i, t);
    assert(t.persistent_state() == state);
    branch_refl(g, i, state);
    (g, Trail { log: none, out: none, taken: g, ahead: g })
}

/// A replica and its disk stay sound as another steps.
pub proof fn node_stays<SM: StateMachine>(
    h: History<SM::Input>,
    k: History<SM::Input>,
    i: ReplicaID,
    j: ReplicaID,
    s: ReplicaModel<SM>,
    disk: Stored<SM::Input>,
    trail: Trail<SM::Input>,
)
    requires
        h.wf(),
        k.wf(),
        h.grew(k, i),
        k.moment == h.moment,
        i != j,
        i < h.config.size(),
        node_ok(h, j, s, disk, trail),
    ensures
        node_ok(k, j, s, disk, trail.beside(k, j)),
{
    reveal(node_ok);
    let shown = disk.kept.shown;
    let (taken, ahead) = (k.with_branch(trail.taken, j), k.with_branch(trail.ahead, j));
    branch_joins(h, k, trail.ahead, i, j);
    replica_ok_stays(trail.ahead, ahead, i, j, s);
    unmoved_by_another(h, k, i, j);
    rests_unmoved(h, k, i, j, shown);
    assert forall|u: ViewNumber| #[trigger] k.ack(j, u) == h.ack(j, u) by {}
    write_unmoved(h, k, i, j, shown, disk.kept.state, trail.log);
    assert(s.self_id == j && asks_ok::<SM>(s.config, j, s.outbox_ready) && asks_ok::<SM>(
        s.config,
        j,
        s.outbox_waiting,
    )) by {
        reveal(log_ok);
        reveal(outbox_ok);
    }
    others_mail_stays::<SM>(h, k, i, j, s, s.outbox_ready);
    assert(acks_left::<SM>(k, s.outbox_ready)) by {
        assert forall|n: int| 0 <= n < s.outbox_ready.len() implies ack_left::<SM>(
            k,
            (#[trigger] s.outbox_ready[n]).1,
        ) by {
            assert(ack_left::<SM>(h, s.outbox_ready[n].1));
            if let MessageView::PrepareOk { view_number, op_number, replica_id } =
                s.outbox_ready[n].1 {
                assert(k.ack(replica_id, view_number) >= h.ack(replica_id, view_number));
            }
        }
    }
    if let Some(out) = disk.out {
        let x = trail.taken;
        branch_joins(h, k, x, i, j);
        branches_join(k, x, trail.ahead, j);
        unmoved_by_another(x, taken, i, j);
        rests_unmoved(x, taken, i, j, out.shown);
        assert forall|u: ViewNumber| #[trigger] taken.ack(j, u) == x.ack(j, u) by {}
        write_unmoved(x, taken, i, j, out.shown, out.state, trail.out);
        others_mail_stays::<SM>(x, taken, i, j, s, s.outbox_waiting);
        acks_stay_within::<SM>(x, taken, j, out.state, trail.out, s.outbox_waiting);
    }
}

/// What waits for a write acknowledges what it holds as long as the replica
/// holds what it held.
proof fn acks_stay_within<SM: StateMachine>(
    h: History<SM::Input>,
    g: History<SM::Input>,
    i: ReplicaID,
    state: PersistentView<SM::Input>,
    log: Seq<LogEntry<SM::Input>>,
    mail: Seq<(ReplicaID, MessageViewFor<SM>)>,
)
    requires
        forall|u: ViewNumber| #[trigger] g.acc(i, u) >= h.acc(i, u),
        acks_within::<SM>(h, i, state, log, mail),
    ensures
        acks_within::<SM>(g, i, state, log, mail),
{
    assert forall|k: int| 0 <= k < mail.len() implies ack_within::<SM>(
        g,
        i,
        state,
        log,
        (#[trigger] mail[k]).1,
    ) by {
        assert(ack_within::<SM>(h, i, state, log, mail[k].1));
        assert(g.acc(i, state.last_normal_view) >= h.acc(i, state.last_normal_view));
        if let MessageView::PrepareOk { view_number, .. } = mail[k].1 {
            assert(g.acc(i, view_number) >= h.acc(i, view_number));
        }
    }
}

/// What holds of a replica's mail holds whatever the others do.
proof fn others_mail_stays<SM: StateMachine>(
    h: History<SM::Input>,
    g: History<SM::Input>,
    i: ReplicaID,
    j: ReplicaID,
    s: ReplicaModel<SM>,
    mail: Seq<(ReplicaID, MessageViewFor<SM>)>,
)
    requires
        h.wf(),
        h.grew(g, i),
        g.moment == h.moment,
        i != j,
        mail_ok::<SM>(h, mail),
        asks_ok::<SM>(s.config, j, mail),
    ensures
        mail_ok::<SM>(g, mail),
{
    assert forall|k: int| 0 <= k < mail.len() implies message_ok::<SM>(
        g,
        (#[trigger] mail[k]).0,
        mail[k].1,
    ) by {
        assert(asker_ok::<SM>(s.config, j, mail[k].1));
        if let MessageView::PrepareOk { view_number, op_number, replica_id } = mail[k].1 {
            assert(g.acc(j, view_number) == h.acc(j, view_number));
        }
        message_ok_stays::<SM>(h, g, i, mail[k].0, mail[k].1);
    }
}

} // verus!
