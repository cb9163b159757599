use vstd::prelude::*;
use super::history::{prefix, segment_of, History};
use crate::ids::{CommitID, ReplicaID, ViewNumber};
use crate::log::{LogEntry, SegmentView};
use crate::message::{MessageView, MessageViewFor};
use crate::config::ConfigView;
use crate::replica::model::{reach, round_marks, ReplicaModel};
use crate::replica::parts::{DoViewChangeView, ResumeView, Status};
use crate::state_machine::StateMachine;

verus! {

impl<Op> History<Op> {
    /// Whether `log` is one that a replica can hold in view `v`, which has
    /// started.
    pub open spec fn regular(self, log: Seq<LogEntry<Op>>, v: ViewNumber) -> bool {
        self.started(v) && prefix(log, self.log_of(v)) && self.complete(log, v as int)
    }

    /// Whether `log`, of which `commit_number` entries are committed, is one
    /// that replica `to` may take in view `v`: a log of the view, or, for
    /// the view's primary, one the view could start with.
    pub open spec fn offers(
        self,
        to: ReplicaID,
        v: ViewNumber,
        log: Seq<LogEntry<Op>>,
        commit_number: CommitID,
    ) -> bool {
        ||| self.regular(log, v) && self.committed(log, commit_number as nat, v + 1)
        ||| {
            &&& to == self.config.primary_of(v)
            &&& self.complete(log, v as int)
            &&& self.committed(log, commit_number as nat, v as int)
        }
    }

    /// Whether `segment` is that of `log`, and starts at a committed op if
    /// it starts at a checkpoint.
    pub open spec fn segment_ok(
        self,
        log: Seq<LogEntry<Op>>,
        segment: SegmentView<Op>,
        commit_number: CommitID,
    ) -> bool {
        &&& segment_of(log, segment)
        &&& segment.base is Checkpoint ==> segment.start() <= commit_number
    }

    /// Whether replica `to` may take `segment` and `commit_number` in view
    /// `v`.
    pub open spec fn state_ok(
        self,
        to: ReplicaID,
        v: ViewNumber,
        segment: SegmentView<Op>,
        commit_number: CommitID,
    ) -> bool {
        exists|log: Seq<LogEntry<Op>>|
            #![trigger self.offers(to, v, log, commit_number)]
            self.offers(to, v, log, commit_number) && self.segment_ok(log, segment, commit_number)
    }

    /// Whether a backup of view `v`, which has started, may take `segment`
    /// and `commit_number`.
    pub open spec fn start_ok(
        self,
        v: ViewNumber,
        segment: SegmentView<Op>,
        commit_number: CommitID,
    ) -> bool {
        exists|log: Seq<LogEntry<Op>>|
            #![trigger self.regular(log, v)]
            self.regular(log, v) && self.committed(log, commit_number as nat, v + 1)
                && segment_of(log, segment)
    }

    /// Whether replica `s` may be asked for its log by replica `r` in view
    /// `v`: it leads the view, or the view could start with the log that it
    /// reported, and `r` is to lead it.
    pub open spec fn may_ask(self, s: ReplicaID, r: ReplicaID, v: ViewNumber) -> bool {
        ||| s == self.config.primary_of(v) && self.started(v)
        ||| {
            &&& r == self.config.primary_of(v)
            &&& s != r
            &&& self.reported.contains_key((s, v))
            &&& self.complete(self.reported[(s, v)], v as int)
        }
    }

    /// Whether replica `to` may recover into view `v` with `segment` and
    /// `commit_number`, if it recovers with `nonce`: they are of a log that
    /// has all of the view's that the replica has ever held, whole or from a
    /// checkpoint on.
    pub open spec fn recovery_ok(
        self,
        to: ReplicaID,
        nonce: u64,
        v: ViewNumber,
        segment: SegmentView<Op>,
        commit_number: CommitID,
    ) -> bool {
        &&& segment.base is Op ==> segment.start() == 0
        &&& exists|log: Seq<LogEntry<Op>>|
            #![trigger self.regular(log, v)]
            {
                &&& self.regular(log, v)
                &&& self.committed(log, commit_number as nat, v + 1)
                &&& self.segment_ok(log, segment, commit_number)
                &&& self.recovers(to, nonce) ==> {
                    &&& self.acc(to, v) <= log.len()
                    &&& self.has_kept(self.recovering[to as int]->0, v, log)
                }
            }
    }

    /// Whether `report`, of `log`, is what replica `q` reports for view `v`.
    /// A replica reports one log in a view, but for the view's primary,
    /// which tells nobody.
    pub open spec fn report_of(
        self,
        q: ReplicaID,
        v: ViewNumber,
        report: DoViewChangeView<Op>,
        log: Seq<LogEntry<Op>>,
    ) -> bool {
        &&& q < self.config.size()
        &&& q != self.config.primary_of(v) ==> self.reported.contains_key((q, v))
            && self.reported[(q, v)] == log
        &&& segment_of(log, report.segment)
        &&& report.last_normal_view < v
        &&& self.at[q as int] >= v
        &&& forall|u: ViewNumber| u < v && #[trigger] self.acc(q, u) > 0 ==> u
            <= report.last_normal_view
        &&& self.keeps(log, report.last_normal_view, self.acc(q, report.last_normal_view))
        &&& self.committed(log, report.commit_number as nat, v as int)
    }

    /// Whether `report` is what replica `q` reports for view `v`.
    pub open spec fn report_ok(
        self,
        q: ReplicaID,
        v: ViewNumber,
        report: DoViewChangeView<Op>,
    ) -> bool {
        exists|log: Seq<LogEntry<Op>>| #[trigger] self.report_of(q, v, report, log)
    }
}

/// What holds of `message` to replica `to`.
pub open spec fn message_ok<SM: StateMachine>(
    h: History<SM::Input>,
    to: ReplicaID,
    message: MessageViewFor<SM>,
) -> bool {
    match message {
        MessageView::Prepare { view_number, op_number, entry, commit_number } => {
            &&& to != h.config.primary_of(view_number)
            &&& h.started(view_number)
            &&& 1 <= op_number <= h.log_of(view_number).len()
            &&& h.log_of(view_number)[op_number - 1] == entry
            &&& h.committed(h.log_of(view_number), commit_number as nat, view_number + 1)
        },
        MessageView::PrepareOk { view_number, op_number, replica_id } => h.acc(
            replica_id,
            view_number,
        ) >= op_number,
        MessageView::Commit { view_number, commit_number } => {
            &&& to != h.config.primary_of(view_number)
            &&& h.started(view_number)
            &&& h.committed(h.log_of(view_number), commit_number as nat, view_number + 1)
        },
        MessageView::GetState { replica_id, view_number, op_number } => h.may_ask(
            to,
            replica_id,
            view_number,
        ),
        MessageView::NewState { replica_id, view_number, segment, commit_number } => h.state_ok(
            to,
            view_number,
            segment,
            commit_number,
        ),
        MessageView::DoViewChange {
            view_number,
            replica_id,
            last_normal_view,
            segment,
            commit_number,
        } => to != replica_id && h.report_ok(
            replica_id,
            view_number,
            DoViewChangeView { last_normal_view, segment, commit_number },
        ),
        MessageView::StartViewChange { view_number, replica_id } => to != replica_id,
        MessageView::StartView { view_number, segment, commit_number } => {
            &&& to != h.config.primary_of(view_number)
            &&& h.start_ok(view_number, segment, commit_number)
        },
        MessageView::ConfirmView { view_number, round } => round <= h.rounds_of(view_number),
        MessageView::ConfirmViewOk { view_number, round, replica_id } => {
            &&& round <= h.asked_of(view_number)
            &&& h.was_at_most(replica_id, view_number, round as nat)
        },
        MessageView::Recovery { replica_id, nonce, view_number } => {
            &&& to != replica_id
            &&& replica_id < h.config.size()
            &&& h.used.contains((replica_id, nonce))
            &&& h.recovers(replica_id, nonce) ==> h.kept_chosen(
                h.recovering[replica_id as int]->0,
            )
        },
        MessageView::RecoveryResponse { view_number, nonce, replica_id, state } => {
            &&& to != replica_id
            &&& to < h.config.size()
            &&& replica_id < h.config.size()
            &&& h.used.contains((to, nonce))
            &&& h.recovers(to, nonce) ==> h.knows_kept(
                h.recovering[to as int]->0,
                replica_id,
                view_number,
            )
            &&& state matches Some(state) ==> h.recovery_ok(
                to,
                nonce,
                view_number,
                state.segment,
                state.commit_number,
            )
        },
        _ => true,
    }
}

/// What holds of every message of `mail`.
pub open spec fn mail_ok<SM: StateMachine>(
    h: History<SM::Input>,
    mail: Seq<(ReplicaID, MessageViewFor<SM>)>,
) -> bool {
    forall|k: int| 0 <= k < mail.len() ==> message_ok::<SM>(h, (#[trigger] mail[k]).0, mail[k].1)
}

/// Whether the rounds of confirmations that `mail` asks for are of views
/// that replica `i` leads, and what it acknowledges is acknowledged for it.
pub open spec fn asks_ok<SM: StateMachine>(
    config: ConfigView,
    i: ReplicaID,
    mail: Seq<(ReplicaID, MessageViewFor<SM>)>,
) -> bool {
    forall|k: int|
        0 <= k < mail.len() ==> asker_ok::<SM>(config, i, (#[trigger] mail[k]).1)
}

/// Whether `message` is one that replica `i` may send, as far as rounds and
/// acknowledgements go.
pub open spec fn asker_ok<SM: StateMachine>(
    config: ConfigView,
    i: ReplicaID,
    message: MessageViewFor<SM>,
) -> bool {
    match message {
        MessageView::ConfirmView { view_number, .. } => config.primary_of(view_number) == i,
        MessageView::ConfirmViewOk { view_number, .. } => config.primary_of(view_number) != i,
        MessageView::GetState { replica_id, .. } => replica_id == i,
        MessageView::PrepareOk { replica_id, .. } => replica_id == i,
        _ => true,
    }
}

/// Whether no message of `mail` may leave before a write.
pub open spec fn patient<SM: StateMachine>(mail: Seq<(ReplicaID, MessageViewFor<SM>)>) -> bool {
    forall|k: int| 0 <= k < mail.len() ==> !(#[trigger] mail[k]).1.early()
}

/// What holds of a replica's messages that have not left it.
#[verifier::opaque]
pub open spec fn outbox_ok<SM: StateMachine>(h: History<SM::Input>, s: ReplicaModel<SM>) -> bool {
    &&& forall|k: int|
        0 <= k < s.outbox_early.len() ==> (#[trigger] s.outbox_early[k]).1.early()
    &&& patient::<SM>(s.outbox)
    &&& patient::<SM>(s.outbox_waiting)
    &&& patient::<SM>(s.outbox_ready)
    // A replica that recovers acknowledges nothing.
    &&& s.status == Status::Recovering ==> forall|k: int|
        0 <= k < s.outbox.len() ==> !((#[trigger] s.outbox[k]).1 is PrepareOk)
    &&& asks_ok::<SM>(s.config, s.self_id, s.outbox_early)
    &&& asks_ok::<SM>(s.config, s.self_id, s.outbox)
    &&& asks_ok::<SM>(s.config, s.self_id, s.outbox_waiting)
    &&& asks_ok::<SM>(s.config, s.self_id, s.outbox_ready)
    &&& mail_ok::<SM>(h, s.outbox_early)
    &&& mail_ok::<SM>(h, s.outbox)
    &&& mail_ok::<SM>(h, s.outbox_waiting)
    &&& mail_ok::<SM>(h, s.outbox_ready)
}

/// What holds of the log of replica `i`, whether or not it leads its view.
pub open spec fn stands<SM: StateMachine>(
    h: History<SM::Input>,
    i: ReplicaID,
    s: ReplicaModel<SM>,
) -> bool {
    let log = h.logs[i as int];
    &&& s.self_id == i
    &&& i < h.config.size()
    &&& s.config == h.config
    &&& s.view_number == h.at[i as int]
    &&& log.len() == s.op_number()
    &&& log.skip(s.log_start as int) == s.log
    &&& forall|v: ViewNumber| #[trigger]
        h.reported.contains_key((i, v)) ==> v <= s.view_number
    &&& match h.recovering[i as int] {
        Some(recovery) => {
            &&& s.status == Status::Recovering
            &&& recovery.nonce == s.recovery_nonce
            &&& h.used.contains((i, recovery.nonce))
            &&& h.kept_ok(recovery, log)
        },
        None => s.status != Status::Recovering,
    }
    &&& forall|v: ViewNumber| #[trigger]
        h.acc(i, v) > 0 ==> v <= if s.status == Status::Recovering {
            s.view_number
        } else {
            s.last_normal_view
        }
    &&& if s.status == Status::Recovering {
        // A replica that recovers has nothing to go by but its view, and
        // the checkpoint that its state machine may keep.
        s.commit_number == s.op_number() && s.log_start == s.op_number() && s.last_normal_view == 0
    } else if s.status == Status::ViewChange {
        &&& s.last_normal_view < s.view_number
        &&& h.committed(log, s.commit_number as nat, s.view_number as int)
        &&& h.keeps(log, s.last_normal_view, h.acc(i, s.last_normal_view))
        &&& s.is_primary() ==> !h.started(s.view_number)
    } else {
        &&& s.last_normal_view == s.view_number
        &&& h.committed(log, s.commit_number as nat, s.view_number + 1)
        &&& h.regular(log, s.view_number)
        &&& h.acc(i, s.view_number) == log.len()
    }
}

/// What holds of the log of replica `i`.
#[verifier::opaque]
pub open spec fn log_ok<SM: StateMachine>(
    h: History<SM::Input>,
    i: ReplicaID,
    s: ReplicaModel<SM>,
) -> bool {
    &&& stands(h, i, s)
    &&& s.is_primary() && (s.status == Status::Normal || s.status == Status::StateTransfer) ==> {
        &&& s.status == Status::Normal
        &&& h.logs[i as int] == h.log_of(s.view_number)
    }
}

/// What holds of the acknowledgements that replica `i` has counted.
pub open spec fn acks_ok<SM: StateMachine>(h: History<SM::Input>, s: ReplicaModel<SM>) -> bool {
    &&& s.acked.len() == h.config.size()
    &&& s.status != Status::ViewChange ==> forall|q: int|
        0 <= q < s.acked.len() ==> #[trigger] s.acked[q] <= h.ack(q as ReplicaID, s.view_number)
}

/// What holds of the view change that replica `i` is in.
#[verifier::opaque]
pub open spec fn change_ok<SM: StateMachine>(
    h: History<SM::Input>,
    i: ReplicaID,
    s: ReplicaModel<SM>,
) -> bool {
    // The reports are those of the view.
    &&& s.do_view_change_from.dom().finite()
    &&& forall|q: ReplicaID| #[trigger]
        s.do_view_change_from.contains_key(q) ==> h.report_ok(
            q,
            s.view_number,
            s.do_view_change_from[q],
        )
    &&& s.do_view_change_from.contains_key(i) ==> s.do_view_change_from[i].segment.start()
        <= s.commit_number
    &&& s.status != Status::ViewChange ==> s.catching_up is None
    // A backup reports one log in a view.
    &&& s.status == Status::ViewChange && !s.is_primary() ==> {
        &&& h.reported.contains_key((i, s.view_number)) ==> h.reported[(i, s.view_number)]
            == h.logs[i as int]
        &&& s.do_view_change_sent && s.catching_up is None ==> h.reported.contains_key(
            (i, s.view_number),
        )
    }
    &&& s.status == Status::ViewChange ==> match s.catching_up {
        None => true,
        Some(from) => {
            &&& h.may_ask(from, i, s.view_number)
            &&& s.is_primary() ==> s.do_view_change_from.dom().len() >= s.config.quorum()
        },
    }
    // The checkpoint fetched is of a log that the replica may take.
    &&& s.fetch matches Some(fetch) ==> match fetch.resume {
        ResumeView::NewState { view_number, segment, commit_number } => {
            &&& view_number == s.view_number
            &&& segment.base is Checkpoint
            &&& h.state_ok(i, view_number, segment, commit_number)
            &&& s.status == Status::StateTransfer && segment.end() > s.op_number() || s.status
                == Status::ViewChange && s.catching_up is Some
        },
        ResumeView::RecoveryResponse { view_number, state } => {
            &&& s.status == Status::Recovering
            &&& view_number >= s.view_number
            &&& h.config.primary_of(view_number) != i
            &&& state.segment.base is Checkpoint
            &&& h.recovery_ok(
                i,
                s.recovery_nonce,
                view_number,
                state.segment,
                state.commit_number,
            )
        },
    }
    // The responses to a recovery are to its nonce.
    &&& s.status == Status::Recovering ==> {
        &&& s.recovery_responses.dom().finite()
        &&& !s.recovery_responses.contains_key(i)
        &&& forall|q: ReplicaID| #[trigger]
            s.recovery_responses.contains_key(q) ==> {
                &&& q < h.config.size()
                &&& h.knows_kept(
                    h.recovering[i as int]->0,
                    q,
                    s.recovery_responses[q].view_number,
                )
                &&& s.recovery_responses[q].state matches Some(state) ==> h.recovery_ok(
                    i,
                    s.recovery_nonce,
                    s.recovery_responses[q].view_number,
                    state.segment,
                    state.commit_number,
                )
            }
    }
}

/// What holds of replica `i` if it leads its view.
#[verifier::opaque]
pub open spec fn leads_ok<SM: StateMachine>(
    h: History<SM::Input>,
    i: ReplicaID,
    s: ReplicaModel<SM>,
) -> bool {
    let v = s.view_number;
    let log = h.logs[i as int];
    s.leads() ==> {
        // A round that has not left has not been confirmed.
        &&& h.rounds_of(v) == s.round
        &&& s.round_unsent ==> h.asked_of(v) < s.round
        &&& s.confirmed.len() == h.config.size()
        &&& forall|q: int|
            0 <= q < s.confirmed.len() && q != i ==> #[trigger] s.confirmed[q] <= h.asked_of(v)
        &&& forall|q: int|
            0 <= q < s.confirmed.len() ==> h.was_at_most(
                q as ReplicaID,
                v,
                (#[trigger] s.confirmed[q]) as nat,
            )
        // A quorum has confirmed what is confirmed.
        &&& s.round_confirmed == 0 || reach(round_marks(s.confirmed), s.round_confirmed as int)
            >= s.config.quorum()
        // It has committed what is committed in its view, and its view
        // started with all that can be committed before.
        &&& h.decl(v) <= s.commit_number
        &&& s.view_start_op <= log.len()
        &&& h.complete(log.take(s.view_start_op as int), v as int)
    }
}

/// What holds of replica `i`, whether or not it leads its view.
pub open spec fn base_ok<SM: StateMachine>(
    h: History<SM::Input>,
    i: ReplicaID,
    s: ReplicaModel<SM>,
) -> bool {
    &&& log_ok(h, i, s)
    &&& acks_ok(h, s)
    &&& change_ok(h, i, s)
    &&& outbox_ok(h, s)
}

/// What holds of replica `i`.
pub open spec fn replica_ok<SM: StateMachine>(
    h: History<SM::Input>,
    i: ReplicaID,
    s: ReplicaModel<SM>,
) -> bool {
    &&& base_ok(h, i, s)
    &&& leads_ok(h, i, s)
}

/// Whether a step of replica `i` to `t` keeps what holds of its cluster.
pub open spec fn follows<SM: StateMachine>(
    h: History<SM::Input>,
    i: ReplicaID,
    t: ReplicaModel<SM>,
) -> bool {
    exists|g: History<SM::Input>|
        {
            &&& h.grows(g, i)
            &&& g.wf()
            &&& g.used == h.used
            &&& g.acknowledged == h.acknowledged
            &&& #[trigger] replica_ok(g, i, t)
        }
}

} // verus!
