use vstd::prelude::*;
use super::model::{all_but, mail, ReplicaModel};
use super::{mail_view, Replica};
use crate::ids::{OpNumber, ReplicaID};
use crate::message::{Message, MessageFor, MessageViewFor};
use crate::state_machine::StateMachine;

verus! {

pub(crate) broadcast proof fn mail_view_push<Op, Query, Chunk>(
    mail: Seq<(ReplicaID, Message<Op, Query, Chunk>)>,
    letter: (ReplicaID, Message<Op, Query, Chunk>),
)
    ensures
        #[trigger] mail_view(mail.push(letter)) == mail_view(mail).push((letter.0, letter.1@)),
{
    assert(mail_view(mail.push(letter)) =~= mail_view(mail).push((letter.0, letter.1@)));
}

impl<SM: StateMachine> Replica<SM> {
    /// Queues a message. One that promises nothing about our durable state
    /// may leave before the step is persisted, see [`Message::early`]; the
    /// rest carry our view, our log, or our acknowledgement, and wait.
    pub(crate) fn send(&mut self, replica_id: ReplicaID, message: MessageFor<SM>)
        requires
            old(self).wf(),
        ensures
            final(self).wf(),
            final(self)@ == old(self)@.send(replica_id, message@),
    {
        broadcast use mail_view_push;

        if message.early() {
            self.outbox_early.push((replica_id, message));
        } else {
            self.outbox.push((replica_id, message));
        }
        assert(self@ =~= old(self)@.send(replica_id, message@));
    }

    pub(crate) fn send_to_primary(&mut self, message: MessageFor<SM>)
        requires
            old(self).wf(),
        ensures
            final(self).wf(),
            final(self)@ == old(self)@.send(old(self)@.primary_id(), message@),
    {
        let primary_id = self.primary_id();
        self.send(primary_id, message);
    }

    pub(crate) fn send_to_others(&mut self, message: MessageFor<SM>)
        requires
            old(self).wf(),
            !(message is Query),
            !(message is NewChunk),
        ensures
            final(self).wf(),
            final(self)@ == old(self)@.send_to_others(message@),
    {
        let size = self.config.size();
        let early = message.early();
        let ghost letter = all_but(old(self)@.self_id, message@);
        let mut replica_id: ReplicaID = 0;
        while replica_id < size
            invariant
                self.wf(),
                size == old(self)@.config.size(),
                replica_id <= size,
                early == message@.early(),
                !(message is Query),
                !(message is NewChunk),
                letter == all_but(old(self)@.self_id, message@),
                early ==> self@ == (ReplicaModel {
                    outbox_early: old(self)@.outbox_early + mail(replica_id as nat, letter),
                    ..old(self)@
                }),
                !early ==> self@ == (ReplicaModel {
                    outbox: old(self)@.outbox + mail(replica_id as nat, letter),
                    ..old(self)@
                }),
            decreases size - replica_id,
        {
            if replica_id != self.self_id {
                self.send(replica_id, message.clone());
            }
            replica_id += 1;
        }
    }

    pub(crate) fn send_get_state(&mut self, op_number: OpNumber)
        requires
            old(self).wf(),
        ensures
            final(self).wf(),
            final(self)@ == old(self)@.send_get_state_to(old(self)@.primary_id(), op_number),
    {
        let primary_id = self.primary_id();
        self.send_get_state_to(primary_id, op_number);
    }

    pub(crate) fn send_get_state_to(&mut self, replica_id: ReplicaID, op_number: OpNumber)
        requires
            old(self).wf(),
        ensures
            final(self).wf(),
            final(self)@ == old(self)@.send_get_state_to(replica_id, op_number),
    {
        let message = Message::GetState {
            replica_id: self.self_id,
            view_number: self.view_number,
            op_number,
        };
        self.send(replica_id, message);
    }

    /// Drops an acknowledgement for the current view that waits to be sent
    /// to the primary.
    fn drop_prepare_ok(&mut self)
        requires
            old(self).wf(),
        ensures
            final(self).wf(),
            final(self)@ == (ReplicaModel {
                outbox: old(self)@.outbox.filter(
                    |mail: (ReplicaID, MessageViewFor<SM>)|
                        !(mail.0 == old(self)@.primary_id() && mail.1 is PrepareOk
                            && mail.1->PrepareOk_view_number == old(self)@.view_number),
                ),
                ..old(self)@
            }),
    {
        broadcast use mail_view_push;

        let primary_id = self.primary_id();
        let view_number = self.view_number;
        let ghost fresh = |mail: (ReplicaID, MessageViewFor<SM>)|
            !(mail.0 == primary_id && mail.1 is PrepareOk && mail.1->PrepareOk_view_number
                == view_number);
        let ghost all = self.outbox@;
        let mut outbox: Vec<(ReplicaID, MessageFor<SM>)> = Vec::new();
        std::mem::swap(&mut outbox, &mut self.outbox);
        let mut kept: Vec<(ReplicaID, MessageFor<SM>)> = Vec::new();
        proof {
            reveal(Seq::filter);
        }
        for letter in iter: outbox
            invariant
                iter.seq() == all,
                fresh == (|mail: (ReplicaID, MessageViewFor<SM>)|
                    !(mail.0 == primary_id && mail.1 is PrepareOk && mail.1->PrepareOk_view_number
                        == view_number)),
                mail_view(kept@) == mail_view(all.take(iter.index())).filter(fresh),
        {
            proof {
                reveal(Seq::filter);
                let i = iter.index();
                assert(mail_view(all.take(i + 1)).drop_last() =~= mail_view(all.take(i)));
                assert(mail_view(all.take(i + 1)).last() == (letter.0, letter.1@));
            }
            let stale = letter.0 == primary_id && match &letter.1 {
                Message::PrepareOk { view_number: view, .. } => *view == view_number,
                _ => false,
            };
            if !stale {
                kept.push(letter);
            }
        }
        assert(all.take(all.len() as int) =~= all);
        self.outbox = kept;
        assert(fresh =~= (|mail: (ReplicaID, MessageViewFor<SM>)|
                        !(mail.0 == old(self)@.primary_id() && mail.1 is PrepareOk
                            && mail.1->PrepareOk_view_number == old(self)@.view_number)));
    }

    /// Acknowledges to the primary that we have every op up to our op
    /// number. An acknowledgement covers every earlier one, so one still
    /// waiting to be sent for this view is dropped in favour of this one.
    pub(crate) fn send_prepare_ok(&mut self)
        requires
            old(self).wf(),
        ensures
            final(self).wf(),
            final(self)@ == old(self)@.send_prepare_ok(),
    {
        self.drop_prepare_ok();
        let message = Message::PrepareOk {
            view_number: self.view_number,
            op_number: self.op_number(),
            replica_id: self.self_id,
        };
        self.send_to_primary(message);
        proof {
            let model = old(self)@;
            let stale = |mail: (ReplicaID, MessageViewFor<SM>)|
                mail.0 == model.primary_id() && mail.1 is PrepareOk
                    && mail.1->PrepareOk_view_number == model.view_number;
            assert((|mail: (ReplicaID, MessageViewFor<SM>)| !stale(mail)) =~= (|
                mail: (ReplicaID, MessageViewFor<SM>),
            | !(mail.0 == model.primary_id() && mail.1 is PrepareOk
                    && mail.1->PrepareOk_view_number == model.view_number)));
        }
    }
}

} // verus!
