use vstd::arithmetic::power2::{lemma2_to64, lemma_pow2_unfold, pow2};
use vstd::prelude::*;
use super::model::{mail, to_unacked, to_unconfirmed, ReplicaModel};
use super::ok::{
    ok_fetch_on_idle, ok_note_stable, ok_send_do_view_change, ok_serve_on_idle, ok_start_next_view,
    ok_wait_timed_out,
};
use super::parts::Status;
use super::Replica;
use crate::ids::{OpNumber, ReplicaID, ViewNumber};
use crate::message::{Message, MessageFor, MessageView};
use crate::state_machine::StateMachine;

verus! {

impl<SM: StateMachine> Replica<SM> {
    /// When there are no client requests, the primary node sends a
    /// `Commit` message to backup nodes periodically to let them commit
    /// if needed.
    ///
    /// Idle periods also drive retransmission: a backup waiting for
    /// `NewState` asks again in case its `GetState` or the reply was lost,
    /// replicas in a view change re-send their view change messages, and a
    /// recovering replica re-sends `Recovery` to whoever has not answered.
    /// The primary re-sends one `Prepare` to each backup that has not
    /// acknowledged, a whole idle period after it was sent, an uncommitted
    /// op: that of the last such op. A backup that holds every op before it
    /// acknowledges them all; one that lacks some finds the gap and asks for
    /// them with a state transfer. A lost `Prepare` or `PrepareOk` is thus
    /// repaired one to two idle periods after it was sent.
    ///
    /// And they drive the timers: a backup that has not heard from the
    /// primary for `Config::primary_timeout` idle periods starts a view
    /// change, and a view change that takes as long to complete is
    /// followed by another, waiting twice as long each time.
    #[verifier::spinoff_prover]
    pub fn on_idle(&mut self)
        requires
            old(self).wf(),
            old(self)@.on_idle().ok,
        ensures
            final(self).wf(),
            final(self)@ == old(self)@.on_idle(),
    {
        broadcast use {
            ok_serve_on_idle,
            ok_fetch_on_idle,
            ok_note_stable,
            ok_wait_timed_out,
            ok_start_next_view,
            ok_send_do_view_change,
        };

        proof {
            reveal(ReplicaModel::on_idle);
            ok_on_idle_parts(old(self)@.serve_on_idle());
        }
        self.serve_on_idle();
        match self.status {
            Status::Normal => if self.is_primary() {
                self.primary_on_idle();
            } else {
                self.backup_on_idle();
            },
            Status::StateTransfer => {
                self.backup_on_idle();
            },
            Status::Recovering => {
                if !self.fetch_on_idle() {
                    self.send_recovery();
                }
            },
            Status::ViewChange => {
                self.view_change_on_idle();
            },
        }
    }

    /// Tells the backups how far we have committed, and sends again what
    /// they have not acknowledged or confirmed.
    fn primary_on_idle(&mut self)
        requires
            old(self).wf(),
            old(self)@.leads(),
            old(self)@.primary_on_idle().ok,
        ensures
            final(self).wf(),
            final(self)@ == old(self)@.primary_on_idle(),
    {
        broadcast use {
            ok_serve_on_idle,
            ok_fetch_on_idle,
            ok_note_stable,
            ok_wait_timed_out,
            ok_start_next_view,
            ok_send_do_view_change,
        };

        self.note_stable();
        let view_number = self.view_number;
        let commit_number = self.commit_number;
        self.send_to_others(Message::Commit { view_number, commit_number });
        let ghost told = self@;
        let last_op = self.op_number();
        let due = if self.resend_up_to <= last_op {
            self.resend_up_to
        } else {
            last_op
        };
        self.resend_up_to = last_op;
        assert(self@ == (ReplicaModel { resend_up_to: last_op, ..told }));
        if due > commit_number {
            self.resend_prepare(due);
        }
        if self.round > self.round_confirmed {
            self.resend_confirm_view();
        }
    }

    /// Sends op `due` again to the backups that have not acknowledged it.
    fn resend_prepare(&mut self, due: OpNumber)
        requires
            old(self).wf(),
            old(self)@.commit_number < due <= old(self)@.op_number(),
        ensures
            final(self).wf(),
            final(self)@ == old(self)@.send_each_early(
                to_unacked(
                    old(self)@.self_id,
                    old(self)@.acked,
                    due,
                    MessageView::Prepare {
                        view_number: old(self)@.view_number,
                        op_number: due,
                        entry: old(self)@.entry(due as int),
                        commit_number: old(self)@.commit_number,
                    },
                ),
            ),
    {
        let message: MessageFor<SM> = Message::Prepare {
            view_number: self.view_number,
            op_number: due,
            entry: self.log[due - self.log_start - 1].clone(),
            commit_number: self.commit_number,
        };
        let ghost model = self@;
        let ghost letter = to_unacked(model.self_id, model.acked, due, message@);
        let size = self.config.size();
        let mut replica_id: ReplicaID = 0;
        while replica_id < size
            invariant
                self.wf(),
                model == old(self)@,
                size == model.config.size(),
                model.acked.len() == size,
                replica_id <= size,
                message@.early(),
                message is Prepare || message is ConfirmView,
                letter == to_unacked(model.self_id, model.acked, due, message@),
                self@ == (ReplicaModel {
                    outbox_early: model.outbox_early + mail(replica_id as nat, letter),
                    ..model
                }),
            decreases size - replica_id,
        {
            assert(self@.acked == model.acked);
            if replica_id != self.self_id && self.acked[replica_id] < due {
                self.send(replica_id, message.clone());
            }
            replica_id += 1;
        }
    }

    /// Asks the backups that have not confirmed our last round again.
    fn resend_confirm_view(&mut self)
        requires
            old(self).wf(),
        ensures
            final(self).wf(),
            final(self)@ == old(self)@.send_each_early(
                to_unconfirmed(
                    old(self)@.confirmed,
                    old(self)@.round,
                    MessageView::ConfirmView {
                        view_number: old(self)@.view_number,
                        round: old(self)@.round,
                    },
                ),
            ),
    {
        let view_number = self.view_number;
        let round = self.round;
        let ghost model = self@;
        let message: MessageFor<SM> = Message::ConfirmView { view_number, round };
        let ghost letter = to_unconfirmed(model.confirmed, round, message@);
        let size = self.config.size();
        let mut replica_id: ReplicaID = 0;
        while replica_id < size
            invariant
                self.wf(),
                model == old(self)@,
                size == model.config.size(),
                model.confirmed.len() == size,
                replica_id <= size,
                message@.early(),
                message is Prepare || message is ConfirmView,
                letter == to_unconfirmed(model.confirmed, round, message@),
                self@ == (ReplicaModel {
                    outbox_early: model.outbox_early + mail(replica_id as nat, letter),
                    ..model
                }),
            decreases size - replica_id,
        {
            assert(self@.confirmed == model.confirmed);
            if self.confirmed[replica_id] < round {
                self.send(replica_id, message.clone());
            }
            replica_id += 1;
        }
    }

    /// Waits for the primary, and asks it again for what is missing.
    #[verifier::spinoff_prover]
    fn backup_on_idle(&mut self)
        requires
            old(self).wf(),
            old(self)@.status == Status::Normal || old(self)@.status == Status::StateTransfer,
            old(self)@.backup_on_idle().ok,
        ensures
            final(self).wf(),
            final(self)@ == old(self)@.backup_on_idle(),
    {
        broadcast use {
            ok_serve_on_idle,
            ok_fetch_on_idle,
            ok_note_stable,
            ok_wait_timed_out,
            ok_start_next_view,
            ok_send_do_view_change,
        };

        if self.status == Status::StateTransfer {
            if !self.fetch_on_idle() {
                self.state_transfer();
            }
        }
        let ghost asked = self@;
        let heard = self.heard_from_primary;
        self.heard_from_primary = false;
        if heard {
            self.idle_periods_waiting = 0;
            assert(self@ == (ReplicaModel {
                heard_from_primary: false,
                idle_periods_waiting: 0,
                ..asked
            }));
            self.note_stable();
        } else {
            self.idle_periods_stable = 0;
            assert(self@ == (ReplicaModel {
                heard_from_primary: false,
                idle_periods_stable: 0,
                ..asked
            }));
            if self.wait_timed_out() {
                self.start_next_view();
            }
        }
    }

    /// Waits for the view change, and sends its messages again.
    #[verifier::spinoff_prover]
    fn view_change_on_idle(&mut self)
        requires
            old(self).wf(),
            old(self)@.status == Status::ViewChange,
            old(self)@.view_change_on_idle().ok,
        ensures
            final(self).wf(),
            final(self)@ == old(self)@.view_change_on_idle(),
    {
        broadcast use {
            ok_serve_on_idle,
            ok_fetch_on_idle,
            ok_note_stable,
            ok_wait_timed_out,
            ok_start_next_view,
            ok_send_do_view_change,
        };

        if self.wait_timed_out() {
            self.start_next_view();
            return;
        }
        if let Some(replica_id) = self.catching_up {
            if !self.fetch_on_idle() {
                let op_number = self.commit_number;
                self.send_get_state_to(replica_id, op_number);
            }
        }
        // A replica catching up with a view that has started has
        // nothing to say in the view change; the primary of a view
        // being started, waiting for a checkpoint, keeps the
        // others' `DoViewChange` coming.

        if self.catching_up.is_none() || self.do_view_change_sent {
            let message = Message::StartViewChange {
                view_number: self.view_number,
                replica_id: self.self_id,
            };
            self.send_to_others(message);
        }
        if self.do_view_change_sent && self.catching_up.is_none() {
            self.send_do_view_change();
        }
    }

    /// Starts a view change to the next view.
    pub(crate) fn start_next_view(&mut self)
        requires
            old(self).wf(),
            old(self)@.start_next_view().ok,
        ensures
            final(self).wf(),
            final(self)@ == old(self)@.start_next_view(),
    {
        broadcast use {
            ok_serve_on_idle,
            ok_fetch_on_idle,
            ok_note_stable,
            ok_wait_timed_out,
            ok_start_next_view,
            ok_send_do_view_change,
        };

        let view_number: ViewNumber = self.view_number + 1;
        self.start_view_change(view_number);
    }

    /// Counts an idle period of the checkpoint kept for replicas that fell
    /// behind, and drops it after twice `Config::primary_timeout` periods
    /// without a replica asking for it.
    fn serve_on_idle(&mut self)
        requires
            old(self).wf(),
            old(self)@.serve_on_idle().ok,
        ensures
            final(self).wf(),
            final(self)@ == old(self)@.serve_on_idle(),
    {
        if let Some((op_number, idle_periods)) = self.serving {
            let waited: usize = idle_periods + 1;
            if waited >= 2 * self.config.primary_timeout() {
                self.serving = None;
                self.state_machine.release_checkpoint();
            } else {
                self.serving = Some((op_number, waited));
            }
            assert(self@ == old(self)@.serve_on_idle());
        }
    }

    /// Counts an idle period of the fetch under way, and returns whether
    /// one is. A fetch that has waited a whole idle period for a chunk asks
    /// for it again, and one that has waited twice `Config::primary_timeout`
    /// periods, longer than a round trip takes, stalls: the replica asks
    /// for state again.
    fn fetch_on_idle(&mut self) -> (under_way: bool)
        requires
            old(self).wf(),
            old(self)@.fetch_on_idle().0.ok,
        ensures
            final(self).wf(),
            (final(self)@, under_way) == old(self)@.fetch_on_idle(),
    {
        let limit: usize = match &self.fetch {
            Some(fetch) => if fetch.stalled {
                return false;
            } else {
                2 * self.config.primary_timeout()
            },
            None => {
                return false;
            },
        };
        let mut taken = None;
        std::mem::swap(&mut taken, &mut self.fetch);
        let mut fetch = match taken {
            Some(fetch) => fetch,
            None => {
                return false;
            },
        };
        let waited: usize = fetch.idle_periods + 1;
        fetch.idle_periods = waited;
        fetch.stalled = waited >= limit;
        let ghost view = fetch@;
        self.fetch = Some(fetch);
        assert(self@ == (ReplicaModel { fetch: Some(view), ..old(self)@ }));
        if waited >= limit {
            return false;
        }
        if waited > 1 {
            self.send_get_chunk();
        }
        true
    }

    /// Counts an idle period of stable normal operation. After
    /// `Config::primary_timeout` of them in a row the view changes are
    /// over, and the backoff is forgotten.
    fn note_stable(&mut self)
        requires
            old(self).wf(),
            old(self)@.note_stable().ok,
        ensures
            final(self).wf(),
            final(self)@ == old(self)@.note_stable(),
    {
        self.idle_periods_stable = self.idle_periods_stable + 1;
        if self.idle_periods_stable >= self.config.primary_timeout() {
            self.view_change_attempts = 0;
        }
        assert(self@ == old(self)@.note_stable());
    }

    /// Counts an idle period spent waiting, and returns whether the wait
    /// has gone on for `Config::primary_timeout` periods, doubled for every
    /// view change entered without a stable stretch of normal status in
    /// between.
    fn wait_timed_out(&mut self) -> (timed_out: bool)
        requires
            old(self).wf(),
            old(self)@.wait_timed_out().0.ok,
        ensures
            final(self).wf(),
            (final(self)@, timed_out) == old(self)@.wait_timed_out(),
    {
        self.idle_periods_waiting = self.idle_periods_waiting + 1;
        assert(self@ == old(self)@.wait_timed_out().0);
        lasted(self.idle_periods_waiting, self.config.primary_timeout(), self.view_change_attempts)
    }
}

/// Whether `waited` periods are as many as `timeout`, doubled `doublings`
/// times.
fn lasted(waited: usize, timeout: usize, doublings: u32) -> (lasted: bool)
    ensures
        lasted == (waited >= timeout as nat * pow2(doublings as nat)),
{
    proof {
        lemma2_to64();
    }
    if timeout == 0 {
        return true;
    }
    let mut limit: usize = timeout;
    let mut doubled: u32 = 0;
    assert(timeout * pow2(0) == timeout);
    while doubled < doublings
        invariant
            timeout > 0,
            doubled <= doublings,
            limit == timeout as nat * pow2(doubled as nat),
        decreases doublings - doubled,
    {
        proof {
            doubles(timeout as nat, doubled as nat);
            grows_with_doublings(timeout as nat, (doubled + 1) as nat, doublings as nat);
        }
        if limit > waited / 2 {
            return false;
        }
        limit = limit * 2;
        doubled = doubled + 1;
    }
    waited >= limit
}

proof fn doubles(timeout: nat, doublings: nat)
    ensures
        timeout * pow2(doublings + 1) == 2 * (timeout * pow2(doublings)),
{
    lemma_pow2_unfold(doublings + 1);
    let power = pow2(doublings);
    assert(timeout * (2 * power) == 2 * (timeout * power)) by (nonlinear_arith);
}

proof fn grows_with_doublings(timeout: nat, from: nat, to: nat)
    requires
        from <= to,
    ensures
        timeout * pow2(from) <= timeout * pow2(to),
    decreases to - from,
{
    if from < to {
        grows_with_doublings(timeout, from, (to - 1) as nat);
        doubles(timeout, (to - 1) as nat);
    }
}

/// Every kind of idle period leads to a state the replica can be in only
/// from such a state.
pub proof fn ok_on_idle_parts<SM: StateMachine>(s: ReplicaModel<SM>)
    ensures
        s.primary_on_idle().ok ==> s.ok,
        s.backup_on_idle().ok ==> s.ok,
        s.view_change_on_idle().ok ==> s.ok,
        s.fetch_on_idle().0.ok ==> s.ok,
{
    broadcast use {
        ok_serve_on_idle,
        ok_fetch_on_idle,
        ok_note_stable,
        ok_wait_timed_out,
        ok_start_next_view,
        ok_send_do_view_change,
    };

}

} // verus!
