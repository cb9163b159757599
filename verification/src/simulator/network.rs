//! Simulated network with fault injection.
//!
//! The simulator hands the network everything the replicas and clients want
//! sent. Chance decides for each message whether it is lost, replayed, or
//! delayed; the network queues what is not lost, and every tick hands back
//! whatever is due.

use vstd::prelude::*;
use super::state_machine::{accumulator_clones_exactly, msg_view, Accumulator, Msg, MsgView};
use crate::message::{Message, MessageView, MessageViewFor, Reply};

verus! {

pub type ReplicaId = usize;

/// Who sent a message.
#[derive(Clone, Copy, Debug, PartialEq, Eq, Structural)]
pub enum Origin {
    Replica(ReplicaId),
    Client(usize),
}

/// A message in the network.
#[derive(Debug)]
pub struct Envelope {
    pub from: Origin,
    pub to: ReplicaId,
    pub sent_at: u64,
    pub due_at: u64,
    pub message: Msg,
}

/// What a message in the network says.
#[verifier::ext_equal]
pub struct EnvelopeView {
    pub from: Origin,
    pub to: ReplicaId,
    pub sent_at: u64,
    pub due_at: u64,
    pub message: MsgView,
}

impl View for Envelope {
    type V = EnvelopeView;

    open spec fn view(&self) -> EnvelopeView {
        EnvelopeView {
            from: self.from,
            to: self.to,
            sent_at: self.sent_at,
            due_at: self.due_at,
            message: msg_view(self.message),
        }
    }
}

/// The name of a message's kind.
pub open spec fn kind_of(message: MessageViewFor<Accumulator>) -> Seq<char> {
    match message {
        MessageView::Register { .. } => "Register"@,
        MessageView::Request { .. } => "Request"@,
        MessageView::Query { .. } => "Query"@,
        MessageView::ConfirmView { .. } => "ConfirmView"@,
        MessageView::ConfirmViewOk { .. } => "ConfirmViewOk"@,
        MessageView::Prepare { .. } => "Prepare"@,
        MessageView::PrepareOk { .. } => "PrepareOk"@,
        MessageView::Commit { .. } => "Commit"@,
        MessageView::GetState { .. } => "GetState"@,
        MessageView::NewState { .. } => "NewState"@,
        MessageView::GetChunk { .. } => "GetChunk"@,
        MessageView::NewChunk { .. } => "NewChunk"@,
        MessageView::StartViewChange { .. } => "StartViewChange"@,
        MessageView::DoViewChange { .. } => "DoViewChange"@,
        MessageView::StartView { .. } => "StartView"@,
        MessageView::Recovery { .. } => "Recovery"@,
        MessageView::RecoveryResponse { .. } => "RecoveryResponse"@,
    }
}

/// The name of a message's kind, for display.
pub fn message_kind(message: &Msg) -> (kind: &'static str)
    ensures
        kind@ == kind_of(message@),
{
    match message {
        Message::Register { .. } => "Register",
        Message::Request { .. } => "Request",
        Message::Query { .. } => "Query",
        Message::ConfirmView { .. } => "ConfirmView",
        Message::ConfirmViewOk { .. } => "ConfirmViewOk",
        Message::Prepare { .. } => "Prepare",
        Message::PrepareOk { .. } => "PrepareOk",
        Message::Commit { .. } => "Commit",
        Message::GetState { .. } => "GetState",
        Message::NewState { .. } => "NewState",
        Message::GetChunk { .. } => "GetChunk",
        Message::NewChunk { .. } => "NewChunk",
        Message::StartViewChange { .. } => "StartViewChange",
        Message::DoViewChange { .. } => "DoViewChange",
        Message::StartView { .. } => "StartView",
        Message::Recovery { .. } => "Recovery",
        Message::RecoveryResponse { .. } => "RecoveryResponse",
    }
}

/// Message counters.
#[derive(Clone, Copy, Debug, PartialEq, Eq, Structural)]
pub struct MessageSummary {
    pub sent: usize,
    pub delivered: usize,
    pub lost: usize,
    pub replayed: usize,
    /// Messages delayed beyond the minimum transit time.
    pub delayed: usize,
}

impl Default for MessageSummary {
    fn default() -> (summary: MessageSummary)
        ensures
            summary == (MessageSummary {
                sent: 0,
                delivered: 0,
                lost: 0,
                replayed: 0,
                delayed: 0,
            }),
    {
        MessageSummary { sent: 0, delivered: 0, lost: 0, replayed: 0, delayed: 0 }
    }
}

/// What chance has in store for a message that faults apply to.
#[derive(Clone, Copy, Debug, PartialEq, Eq, Structural)]
pub struct Fate {
    /// Whether it is lost.
    pub lost: bool,
    /// The delay of a second copy, if it is delivered twice.
    pub replay: Option<u64>,
    /// Its delay.
    pub delay: u64,
}

/// Messages and replies in flight. Each queue holds its items in the order
/// in which they are due, those due in the same tick in the order in which
/// they were sent.
#[derive(Debug)]
pub struct Network {
    /// Minimum one-way delay in ticks: the transit time every message
    /// takes. Delay above it is a fault.
    pub(crate) one_way_delay_min: u64,
    /// Whether faults also apply to messages sent by clients.
    pub(crate) fault_client_messages: bool,
    /// Messages in flight.
    pub(crate) queue: Vec<Envelope>,
    /// Replies in flight to the clients, with the tick they are due.
    pub(crate) replies: Vec<(u64, Reply<i64>)>,
    pub summary: MessageSummary,
}

/// The state of a network.
#[verifier::ext_equal]
pub struct NetworkView {
    pub one_way_delay_min: u64,
    pub fault_client_messages: bool,
    pub queue: Seq<EnvelopeView>,
    pub replies: Seq<(u64, Reply<i64>)>,
    pub summary: MessageSummary,
}

/// What the messages in a queue say.
pub open spec fn queue_view(queue: Seq<Envelope>) -> Seq<EnvelopeView> {
    Seq::new(queue.len(), |i: int| queue[i]@)
}

impl View for Network {
    type V = NetworkView;

    open(crate) spec fn view(&self) -> NetworkView {
        NetworkView {
            one_way_delay_min: self.one_way_delay_min,
            fault_client_messages: self.fault_client_messages,
            queue: queue_view(self.queue@),
            replies: self.replies@,
            summary: self.summary,
        }
    }
}

/// How many messages of `queue` are due by tick `at`, where it holds them in
/// the order in which they are due.
pub open spec fn due_by(queue: Seq<EnvelopeView>, at: u64) -> nat
    decreases queue.len(),
{
    if queue.len() == 0 {
        0
    } else if queue.last().due_at <= at {
        queue.len()
    } else {
        due_by(queue.drop_last(), at)
    }
}

/// How many of `replies` are due by tick `at`, where they are in the order
/// in which they are due.
pub open spec fn replies_due_by(replies: Seq<(u64, Reply<i64>)>, at: u64) -> nat
    decreases replies.len(),
{
    if replies.len() == 0 {
        0
    } else if replies.last().0 <= at {
        replies.len()
    } else {
        replies_due_by(replies.drop_last(), at)
    }
}

/// Whether faults apply to messages from clients only where they are asked
/// for.
pub open spec fn from_client(message: MsgView) -> bool {
    message is Register || message is Request || message is Query
}

impl NetworkView {
    /// Whether what is in flight is in the order in which it is due.
    pub open spec fn inv(self) -> bool {
        &&& forall|i: int, j: int|
            0 <= i <= j < self.queue.len() ==> (#[trigger] self.queue[i]).due_at <= (
            #[trigger] self.queue[j]).due_at
        &&& forall|i: int, j: int|
            0 <= i <= j < self.replies.len() ==> (#[trigger] self.replies[i]).0 <= (
            #[trigger] self.replies[j]).0
    }

    /// Whether the counters have room for another message and its replay.
    pub open spec fn has_room(self) -> bool {
        &&& self.summary.sent < usize::MAX
        &&& self.summary.lost < usize::MAX
        &&& self.summary.replayed < usize::MAX
        &&& self.summary.delayed + 2 <= usize::MAX
        &&& self.summary.delivered < usize::MAX
    }

    /// The network with a message queued that is due at `envelope.due_at`.
    pub open spec fn enqueue_at(self, envelope: EnvelopeView) -> Self {
        NetworkView {
            queue: self.queue.insert(due_by(self.queue, envelope.due_at) as int, envelope),
            ..self
        }
    }

    /// The network with a message queued that takes `delay` ticks.
    pub open spec fn enqueue(
        self,
        now: u64,
        from: Origin,
        to: ReplicaId,
        message: MsgView,
        delay: u64,
    ) -> Self {
        let delayed = if delay > self.one_way_delay_min {
            (self.summary.delayed + 1) as usize
        } else {
            self.summary.delayed
        };
        NetworkView { summary: MessageSummary { delayed, ..self.summary }, ..self }.enqueue_at(
            EnvelopeView { from, to, sent_at: now, due_at: (now + delay) as u64, message },
        )
    }

    /// Whether faults apply to `message`.
    pub open spec fn faults_apply(self, message: MsgView) -> bool {
        !from_client(message) || self.fault_client_messages
    }

    /// The network after a message was sent at tick `now`.
    pub open spec fn send(
        self,
        now: u64,
        from: Origin,
        to: ReplicaId,
        message: MsgView,
        fate: Fate,
    ) -> Self {
        let sent = NetworkView {
            summary: MessageSummary { sent: (self.summary.sent + 1) as usize, ..self.summary },
            ..self
        };
        if !self.faults_apply(message) {
            sent.enqueue_at(EnvelopeView { from, to, sent_at: now, due_at: now, message })
        } else if fate.lost {
            NetworkView {
                summary: MessageSummary { lost: (sent.summary.lost + 1) as usize, ..sent.summary },
                ..sent
            }
        } else {
            let twice = match fate.replay {
                Some(delay) => NetworkView {
                    summary: MessageSummary {
                        replayed: (sent.summary.replayed + 1) as usize,
                        ..sent.summary
                    },
                    ..sent
                }.enqueue(now, from, to, message, delay),
                None => sent,
            };
            twice.enqueue(now, from, to, message, fate.delay)
        }
    }

    /// The network with a reply queued that takes `delay` ticks.
    pub open spec fn enqueue_reply(self, now: u64, reply: Reply<i64>, delay: u64) -> Self {
        let delayed = if delay > self.one_way_delay_min {
            (self.summary.delayed + 1) as usize
        } else {
            self.summary.delayed
        };
        let due_at = (now + delay) as u64;
        NetworkView {
            summary: MessageSummary { delayed, ..self.summary },
            replies: self.replies.insert(
                replies_due_by(self.replies, due_at) as int,
                (due_at, reply),
            ),
            ..self
        }
    }

    /// The network after a reply was sent at tick `now`, and the reply if it
    /// is delivered at once.
    pub open spec fn send_reply(self, now: u64, reply: Reply<i64>, fate: Fate) -> (
        Self,
        Option<Reply<i64>>,
    ) {
        let sent = NetworkView {
            summary: MessageSummary { sent: (self.summary.sent + 1) as usize, ..self.summary },
            ..self
        };
        if !self.fault_client_messages {
            (
                NetworkView {
                    summary: MessageSummary {
                        delivered: (sent.summary.delivered + 1) as usize,
                        ..sent.summary
                    },
                    ..sent
                },
                Some(reply),
            )
        } else if fate.lost {
            (
                NetworkView {
                    summary: MessageSummary {
                        lost: (sent.summary.lost + 1) as usize,
                        ..sent.summary
                    },
                    ..sent
                },
                None,
            )
        } else {
            let twice = match fate.replay {
                Some(delay) => NetworkView {
                    summary: MessageSummary {
                        replayed: (sent.summary.replayed + 1) as usize,
                        ..sent.summary
                    },
                    ..sent
                }.enqueue_reply(now, reply, delay),
                None => sent,
            };
            (twice.enqueue_reply(now, reply, fate.delay), None)
        }
    }
}

proof fn lemma_due_by(queue: Seq<EnvelopeView>, at: u64)
    requires
        forall|i: int, j: int|
            0 <= i <= j < queue.len() ==> (#[trigger] queue[i]).due_at <= (
            #[trigger] queue[j]).due_at,
    ensures
        due_by(queue, at) <= queue.len(),
        forall|i: int|
            0 <= i < due_by(queue, at) ==> (#[trigger] queue[i]).due_at <= at,
        forall|i: int|
            due_by(queue, at) <= i < queue.len() ==> (#[trigger] queue[i]).due_at > at,
    decreases queue.len(),
{
    if queue.len() > 0 && queue.last().due_at > at {
        let rest = queue.drop_last();
        lemma_due_by(rest, at);
        assert forall|i: int| 0 <= i < due_by(queue, at) implies (
        #[trigger] queue[i]).due_at <= at by {
            assert(rest[i] == queue[i]);
        }
        assert forall|i: int| due_by(queue, at) <= i < queue.len() implies (
        #[trigger] queue[i]).due_at > at by {
            if i < rest.len() {
                assert(rest[i] == queue[i]);
            }
        }
    }
}

proof fn lemma_replies_due_by(replies: Seq<(u64, Reply<i64>)>, at: u64)
    requires
        forall|i: int, j: int|
            0 <= i <= j < replies.len() ==> (#[trigger] replies[i]).0 <= (
            #[trigger] replies[j]).0,
    ensures
        replies_due_by(replies, at) <= replies.len(),
        forall|i: int|
            0 <= i < replies_due_by(replies, at) ==> (#[trigger] replies[i]).0 <= at,
        forall|i: int|
            replies_due_by(replies, at) <= i < replies.len() ==> (#[trigger] replies[i]).0 > at,
    decreases replies.len(),
{
    if replies.len() > 0 && replies.last().0 > at {
        let rest = replies.drop_last();
        lemma_replies_due_by(rest, at);
        assert forall|i: int| 0 <= i < replies_due_by(replies, at) implies (
        #[trigger] replies[i]).0 <= at by {
            assert(rest[i] == replies[i]);
        }
        assert forall|i: int| replies_due_by(replies, at) <= i < replies.len() implies (
        #[trigger] replies[i]).0 > at by {
            if i < rest.len() {
                assert(rest[i] == replies[i]);
            }
        }
    }
}

impl Network {
    /// A network whose messages take at least `one_way_delay_min` ticks,
    /// unless they are a client's and faults do not apply to those.
    pub fn new(one_way_delay_min: u64, fault_client_messages: bool) -> (network: Network)
        ensures
            network@.inv(),
            network@ == (NetworkView {
                one_way_delay_min,
                fault_client_messages,
                queue: Seq::empty(),
                replies: Seq::empty(),
                summary: MessageSummary {
                    sent: 0,
                    delivered: 0,
                    lost: 0,
                    replayed: 0,
                    delayed: 0,
                },
            }),
    {
        let network = Network {
            one_way_delay_min,
            fault_client_messages,
            queue: Vec::new(),
            replies: Vec::new(),
            summary: MessageSummary::default(),
        };
        assert(network@.queue =~= Seq::empty());
        network
    }

    /// Replaces the fault options. Messages already in flight keep their
    /// scheduled delivery tick.
    pub fn set_options(&mut self, one_way_delay_min: u64, fault_client_messages: bool)
        ensures
            final(self)@ == (NetworkView {
                one_way_delay_min,
                fault_client_messages,
                ..old(self)@
            }),
            old(self)@.inv() ==> final(self)@.inv(),
    {
        self.one_way_delay_min = one_way_delay_min;
        self.fault_client_messages = fault_client_messages;
    }

    /// Number of messages and replies in flight.
    pub fn pending(&self) -> (pending: usize)
        requires
            self@.queue.len() + self@.replies.len() <= usize::MAX,
        ensures
            pending == self@.queue.len() + self@.replies.len(),
    {
        self.queue.len() + self.replies.len()
    }

    /// Messages in flight, in delivery order.
    pub fn in_flight(&self) -> (queue: &[Envelope])
        ensures
            queue_view(queue@) == self@.queue,
    {
        self.queue.as_slice()
    }

    /// Whether faults apply to `message`.
    pub fn faults_apply(&self, message: &Msg) -> (apply: bool)
        ensures
            apply == self@.faults_apply(msg_view(*message)),
    {
        let from_client = match message {
            Message::Register { .. } => true,
            Message::Request { .. } => true,
            Message::Query { .. } => true,
            _ => false,
        };
        !from_client || self.fault_client_messages
    }

    /// Accepts a message sent at tick `now`, with what chance has in store
    /// for it where faults apply.
    pub fn send(&mut self, now: u64, from: Origin, dst: ReplicaId, msg: Msg, fate: Fate)
        requires
            old(self)@.inv(),
            old(self)@.has_room(),
            now + fate.delay <= u64::MAX,
            fate.replay matches Some(delay) ==> now + delay <= u64::MAX,
        ensures
            final(self)@.inv(),
            final(self)@ == old(self)@.send(now, from, dst, msg_view(msg), fate),
    {
        proof {
            accumulator_clones_exactly();
        }
        self.summary.sent = self.summary.sent + 1;
        assert(self@.queue == old(self)@.queue && self@.replies == old(self)@.replies);
        if !self.faults_apply(&msg) {
            self.enqueue_at(
                Envelope { from, to: dst, sent_at: now, due_at: now, message: msg },
            );
            return;
        }
        if fate.lost {
            self.summary.lost = self.summary.lost + 1;
            return;
        }
        if let Some(delay) = fate.replay {
            self.summary.replayed = self.summary.replayed + 1;
            assert(self@.queue == old(self)@.queue);
            let copy = msg.clone();
            assert(msg_view(copy) == msg_view(msg));
            self.enqueue(now, from, dst, copy, delay);
        }
        self.enqueue(now, from, dst, msg, fate.delay);
    }

    /// Accepts a reply to a client at tick `now`. It is returned for
    /// delivery at once unless faults apply to clients' messages, which
    /// lose, replay, and delay replies as they do messages.
    pub fn send_reply(&mut self, now: u64, reply: Reply<i64>, fate: Fate) -> (delivered: Option<
        Reply<i64>,
    >)
        requires
            old(self)@.inv(),
            old(self)@.has_room(),
            now + fate.delay <= u64::MAX,
            fate.replay matches Some(delay) ==> now + delay <= u64::MAX,
        ensures
            final(self)@.inv(),
            (final(self)@, delivered) == old(self)@.send_reply(now, reply, fate),
    {
        proof {
            accumulator_clones_exactly();
        }
        self.summary.sent = self.summary.sent + 1;
        assert(self@.queue == old(self)@.queue && self@.replies == old(self)@.replies);
        if !self.fault_client_messages {
            self.summary.delivered = self.summary.delivered + 1;
            return Some(reply);
        }
        if fate.lost {
            self.summary.lost = self.summary.lost + 1;
            return None;
        }
        if let Some(delay) = fate.replay {
            self.summary.replayed = self.summary.replayed + 1;
            self.enqueue_reply(now, reply.clone(), delay);
        }
        self.enqueue_reply(now, reply, fate.delay);
        None
    }

    /// Queues a reply that takes `delay` ticks.
    fn enqueue_reply(&mut self, now: u64, reply: Reply<i64>, delay: u64)
        requires
            old(self)@.inv(),
            old(self)@.summary.delayed < usize::MAX,
            now + delay <= u64::MAX,
        ensures
            final(self)@.inv(),
            final(self)@ == old(self)@.enqueue_reply(now, reply, delay),
    {
        if delay > self.one_way_delay_min {
            self.summary.delayed = self.summary.delayed + 1;
        }
        let due_at: u64 = now + delay;
        assert(self@.queue == old(self)@.queue && self@.replies == old(self)@.replies);
        let ghost replies = self@.replies;
        proof {
            lemma_replies_due_by(replies, due_at);
        }
        let at = self.first_reply_after(due_at);
        self.replies.insert(at, (due_at, reply));
    }

    /// The number of replies due by tick `at`.
    fn first_reply_after(&self, at: u64) -> (count: usize)
        ensures
            count == replies_due_by(self@.replies, at),
            count <= self@.replies.len(),
    {
        let mut count = self.replies.len();
        assert(self.replies@.take(count as int) =~= self.replies@);
        while count > 0 && self.replies[count - 1].0 > at
            invariant
                count <= self.replies@.len(),
                replies_due_by(self.replies@.take(count as int), at) == replies_due_by(
                    self.replies@,
                    at,
                ),
            decreases count,
        {
            proof {
                let all = self.replies@;
                assert(all.take(count as int).drop_last() =~= all.take(count - 1));
                assert(all.take(count as int).last() == all[count - 1]);
            }
            count -= 1;
        }
        proof {
            if count > 0 {
                assert(self.replies@.take(count as int).last() == self.replies@[count - 1]);
            }
        }
        count
    }

    /// The number of messages due by tick `at`.
    fn first_after(&self, at: u64) -> (count: usize)
        ensures
            count == due_by(self@.queue, at),
            count <= self@.queue.len(),
    {
        let mut count = self.queue.len();
        let ghost all = queue_view(self.queue@);
        assert(all.take(count as int) =~= all);
        while count > 0 && self.queue[count - 1].due_at > at
            invariant
                all == queue_view(self.queue@),
                count <= all.len(),
                due_by(all.take(count as int), at) == due_by(all, at),
            decreases count,
        {
            proof {
                assert(all.take(count as int).drop_last() =~= all.take(count - 1));
                assert(all.take(count as int).last() == all[count - 1]);
            }
            count -= 1;
        }
        proof {
            if count > 0 {
                assert(all.take(count as int).last() == all[count - 1]);
            }
        }
        count
    }

    /// Returns every reply due at tick `now` in delivery order.
    pub fn take_due_replies(&mut self, now: u64) -> (due: Vec<Reply<i64>>)
        requires
            old(self)@.inv(),
            old(self)@.summary.delivered + old(self)@.replies.len() <= usize::MAX,
        ensures
            ({
                let count = replies_due_by(old(self)@.replies, now) as int;
                &&& due@ == old(self)@.replies.take(count).map_values(
                    |reply: (u64, Reply<i64>)| reply.1,
                )
                &&& final(self)@ == (NetworkView {
                    replies: old(self)@.replies.skip(count),
                    summary: MessageSummary {
                        delivered: (old(self)@.summary.delivered + count) as usize,
                        ..old(self)@.summary
                    },
                    ..old(self)@
                })
                &&& final(self)@.inv()
            }),
    {
        proof {
            lemma_replies_due_by(self.replies@, now);
        }
        let count = self.first_reply_after(now);
        let ghost all = self.replies@;
        let later = self.replies.split_off(count);
        let mut taken = later;
        std::mem::swap(&mut taken, &mut self.replies);
        self.summary.delivered = self.summary.delivered + taken.len();
        let ghost first = taken@;
        let mut due: Vec<Reply<i64>> = Vec::new();
        let ghost inner = |reply: (u64, Reply<i64>)| reply.1;
        for item in iter: taken
            invariant
                iter.seq() == first,
                inner == (|reply: (u64, Reply<i64>)| reply.1),
                due@ == first.take(iter.index()).map_values(inner),
        {
            proof {
                let i = iter.index();
                assert(first.take(i + 1).map_values(inner) =~= first.take(i).map_values(
                    inner,
                ).push(item.1));
            }
            due.push(item.1);
        }
        proof {
            assert(first.take(first.len() as int) =~= first);
            assert(first =~= all.take(count as int));
            assert(self.replies@ =~= all.skip(count as int));
        }
        due
    }

    /// Returns every message due at tick `now` in delivery order.
    pub fn take_due(&mut self, now: u64) -> (due: Vec<Envelope>)
        requires
            old(self)@.inv(),
            old(self)@.summary.delivered + old(self)@.queue.len() <= usize::MAX,
        ensures
            ({
                let count = due_by(old(self)@.queue, now) as int;
                &&& queue_view(due@) == old(self)@.queue.take(count)
                &&& final(self)@ == (NetworkView {
                    queue: old(self)@.queue.skip(count),
                    summary: MessageSummary {
                        delivered: (old(self)@.summary.delivered + count) as usize,
                        ..old(self)@.summary
                    },
                    ..old(self)@
                })
                &&& final(self)@.inv()
            }),
    {
        proof {
            lemma_due_by(self@.queue, now);
        }
        let count = self.first_after(now);
        let ghost all = self.queue@;
        let later = self.queue.split_off(count);
        let mut due = later;
        std::mem::swap(&mut due, &mut self.queue);
        self.summary.delivered = self.summary.delivered + due.len();
        proof {
            assert(queue_view(due@) =~= queue_view(all).take(count as int));
            assert(queue_view(self.queue@) =~= queue_view(all).skip(count as int));
        }
        due
    }

    /// Queues a message that takes `delay` ticks.
    fn enqueue(&mut self, now: u64, from: Origin, dst: ReplicaId, msg: Msg, delay: u64)
        requires
            old(self)@.inv(),
            old(self)@.summary.delayed < usize::MAX,
            now + delay <= u64::MAX,
        ensures
            final(self)@.inv(),
            final(self)@ == old(self)@.enqueue(now, from, dst, msg_view(msg), delay),
    {
        if delay > self.one_way_delay_min {
            self.summary.delayed = self.summary.delayed + 1;
        }
        assert(self@.queue == old(self)@.queue && self@.replies == old(self)@.replies);
        self.enqueue_at(
            Envelope { from, to: dst, sent_at: now, due_at: now + delay, message: msg },
        );
    }

    fn enqueue_at(&mut self, envelope: Envelope)
        requires
            old(self)@.inv(),
        ensures
            final(self)@.inv(),
            final(self)@ == old(self)@.enqueue_at(envelope@),
    {
        let ghost before = self.queue@;
        let ghost view = envelope@;
        proof {
            lemma_due_by(self@.queue, envelope.due_at);
        }
        let at = self.first_after(envelope.due_at);
        self.queue.insert(at, envelope);
        proof {
            let old_queue = queue_view(before);
            assert(self@.replies == old(self)@.replies);
            assert(queue_view(self.queue@) =~= old_queue.insert(at as int, view));
            assert forall|i: int, j: int| 0 <= i <= j < self@.queue.len() implies (
            #[trigger] self@.queue[i]).due_at <= (#[trigger] self@.queue[j]).due_at by {
                let a = if i < at {
                    old_queue[i]
                } else {
                    old_queue[i - 1]
                };
                let b = if j < at {
                    old_queue[j]
                } else {
                    old_queue[j - 1]
                };
                assert(i != at ==> self@.queue[i] == a);
                assert(j != at ==> self@.queue[j] == b);
            }
        }
    }
}

} // verus!
