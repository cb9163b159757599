use vstd::prelude::*;
use super::rests::{back_as, can_come_back};
use crate::config::ConfigView;
use crate::ids::{OpNumber, ReplicaID, ViewNumber};
use crate::log::PersistentView;
use crate::message::{MessageView, MessageViewFor};
use crate::replica::model::ReplicaModel;
use crate::state_machine::StateMachine;

verus! {

/// A state that a replica's owner has written, or is about to.
#[verifier::ext_equal]
pub struct Kept<Op> {
    pub state: PersistentView<Op>,
    /// The replica as the others may know it if this is what it has: as it
    /// was when it was last in the view that the state records, or when a
    /// message that tells of it last left before its write.
    pub shown: PersistentView<Op>,
}

impl<Op> Kept<Op> {
    /// The same, of a replica that is as `now`.
    pub open spec fn refreshed(self, now: PersistentView<Op>) -> Self {
        if in_view_of(now, self.state) {
            Kept { shown: now, ..self }
        } else {
            self
        }
    }
}

/// Whether a replica that is as `now` takes part in the view that `state`
/// records.
pub open spec fn in_view_of<Op>(now: PersistentView<Op>, state: PersistentView<Op>) -> bool {
    &&& now.view_number == state.view_number
    &&& now.last_normal_view == now.view_number
    &&& state.last_normal_view == state.view_number
    &&& !now.recovering
    &&& !state.recovering
}

/// What a replica's owner has written.
#[verifier::ext_equal]
pub struct Stored<Op> {
    /// What the writes that have landed come to.
    pub kept: Kept<Op>,
    /// What the write that is out will make of it, if one is.
    pub out: Option<Kept<Op>>,
}

impl<Op> Stored<Op> {
    /// The disk of a replica that came back from `state` and a state machine
    /// that has executed `applied` ops.
    pub open spec fn with(state: PersistentView<Op>, applied: OpNumber) -> Self {
        Stored { kept: Kept { state, shown: back_as(state, applied) }, out: None }
    }

    /// The disk of a replica that is as `now`.
    pub open spec fn refreshed(self, now: PersistentView<Op>) -> Self {
        Stored {
            kept: self.kept.refreshed(now),
            out: match self.out {
                Some(out) => Some(out.refreshed(now)),
                None => None,
            },
        }
    }

    /// What every write taken comes to.
    pub open spec fn latest(self) -> PersistentView<Op> {
        match self.out {
            Some(out) => out.state,
            None => self.kept.state,
        }
    }

    /// What a crash leaves: a write that is out has landed whole, or not at
    /// all.
    pub open spec fn survivor(self, landed: bool) -> Kept<Op> {
        match self.out {
            Some(out) => if landed {
                out
            } else {
                self.kept
            },
            None => self.kept,
        }
    }

    /// The disk once the others may know the replica as `shown`.
    pub open spec fn showing(self, shown: PersistentView<Op>) -> Self {
        Stored {
            kept: Kept { shown, ..self.kept },
            out: match self.out {
                Some(out) => Some(Kept { shown, ..out }),
                None => None,
            },
        }
    }
}

/// Whether `message` of replica `i`, which leaves before a write, tells of
/// the replica: it leads a view, or is to lead one that it asks for a log
/// of, or hands over the log that it has, whether it leads the view or not.
pub open spec fn tells<SM: StateMachine>(
    config: ConfigView,
    i: ReplicaID,
    message: MessageViewFor<SM>,
) -> bool {
    match message {
        MessageView::Prepare { .. } => true,
        MessageView::Commit { .. } => true,
        MessageView::ConfirmView { .. } => true,
        MessageView::NewState { .. } => true,
        MessageView::GetState { view_number, .. } => config.primary_of(view_number) == i,
        _ => false,
    }
}

/// Whether some message of `mail` tells of replica `i`, which sends it.
pub open spec fn shows<SM: StateMachine>(
    config: ConfigView,
    i: ReplicaID,
    mail: Seq<(ReplicaID, MessageViewFor<SM>)>,
) -> bool {
    exists|k: int| 0 <= k < mail.len() && #[trigger] tells::<SM>(config, i, mail[k].1)
}

/// A cluster: its replicas, what their owners have written, and every
/// message that they have sent.
#[verifier::ext_equal]
pub struct Cluster<SM: StateMachine> {
    pub config: ConfigView,
    pub replicas: Seq<ReplicaModel<SM>>,
    pub disks: Seq<Stored<SM::Input>>,
    /// Every message that has left a replica, with the replica it is for. A
    /// message may be delivered late, in any order, any number of times, or
    /// not at all.
    pub sent: Seq<(ReplicaID, MessageViewFor<SM>)>,
    /// The nonces that each replica has recovered with.
    pub nonces: Set<(ReplicaID, u64)>,
}

/// What happens in a cluster.
pub enum Action<SM: StateMachine> {
    /// A client's message reaches a replica.
    Client { to: ReplicaID, message: MessageViewFor<SM> },
    /// A message sent reaches its replica. A request for a chunk is answered
    /// with `chunk`.
    Deliver { index: int, chunk: (SM::Chunk, bool) },
    /// An idle period passes at a replica.
    Idle { id: ReplicaID },
    /// A replica compacts its log.
    Compact { id: ReplicaID, op_number: OpNumber },
    /// A replica's owner takes its write, to apply it to the disk. A write
    /// that needs no sync may be `skipped`.
    TakeWrite { id: ReplicaID, skipped: bool },
    /// The write that is out lands, and is handed back.
    Persisted { id: ReplicaID },
    /// The messages of a replica that need not wait for a write leave it.
    SendEarly { id: ReplicaID },
    /// The messages of a replica that wait for no write any more leave it.
    Send { id: ReplicaID },
    /// The replies of a replica leave it.
    Reply { id: ReplicaID },
    /// A replica loses power, and restarts from its disk with a state
    /// machine that has executed `applied` ops. A write that is out has
    /// `landed` or not.
    Restart { id: ReplicaID, landed: bool, machine: SM::State, applied: OpNumber, nonce: u64 },
    /// A replica loses its disk, but for its view, and recovers.
    Recover { id: ReplicaID, machine: SM::State, view_number: ViewNumber, nonce: u64 },
}

impl<SM: StateMachine> Action<SM> {
    /// The replica that steps.
    pub open spec fn replica_id(self, cluster: Cluster<SM>) -> ReplicaID {
        match self {
            Action::Client { to, .. } => to,
            Action::Deliver { index, .. } => cluster.sent[index].0,
            Action::Idle { id } => id,
            Action::Compact { id, .. } => id,
            Action::TakeWrite { id, .. } => id,
            Action::Persisted { id } => id,
            Action::SendEarly { id } => id,
            Action::Send { id } => id,
            Action::Reply { id } => id,
            Action::Restart { id, .. } => id,
            Action::Recover { id, .. } => id,
        }
    }
}

impl<SM: StateMachine> Cluster<SM> {
    /// A cluster that has done nothing yet.
    pub open spec fn init(config: ConfigView, machines: Seq<SM::State>) -> Self {
        Cluster {
            config,
            replicas: Seq::new(
                config.size(),
                |i: int| ReplicaModel::init(i as ReplicaID, config, machines[i]),
            ),
            disks: Seq::new(
                config.size(),
                |i: int| Stored::with(PersistentView::empty(), 0),
            ),
            sent: Seq::empty(),
            nonces: Set::empty(),
        }
    }

    /// Whether `action` can happen: the counters of the replica have room for
    /// the step, its state machine takes the calls that it makes, and what is
    /// delivered was sent.
    ///
    /// A replica that loses power comes back to the view that the others may
    /// know it in. One that told of itself in a view before a write recorded
    /// it does not lose power until one has, and its state machine keeps
    /// nothing that the replica learned to be committed in a view that no
    /// write recorded, unless it was recovering. A replica that loses its
    /// disk still knows a view no earlier than the others may know it in. A
    /// replica recovers with a nonce that it has not used.
    #[verifier::opaque]
    pub open spec fn can(self, action: Action<SM>) -> bool {
        let id = action.replica_id(self);
        let s = self.replicas[id as int];
        &&& id < self.config.size()
        &&& match action {
            Action::Client { message, .. } => {
                &&& message is Register || message is Request || message is Query
                &&& s.on_message(message, arbitrary()).room
            },
            Action::Deliver { index, chunk } => {
                &&& 0 <= index < self.sent.len()
                &&& s.on_message(self.sent[index].1, chunk).room
            },
            Action::Idle { .. } => s.on_idle().room,
            Action::Compact { .. } => true,
            Action::TakeWrite { skipped, .. } => {
                &&& s.outstanding is None
                &&& s.take_write().room
                &&& skipped ==> !s.write().sync
            },
            Action::Persisted { .. } => s.outstanding is Some && s.persisted().room,
            Action::SendEarly { .. } => true,
            Action::Send { .. } => true,
            Action::Reply { .. } => true,
            Action::Restart { landed, machine, applied, nonce, .. } => {
                let kept = self.disks[id as int].survivor(landed);
                let state = kept.state;
                &&& can_come_back(kept.shown, state, s.commit_number, applied)
                &&& state.recovering ==> !self.nonces.contains((id, nonce))
                &&& ReplicaModel::<SM>::can_restart(machine, applied, state)
                &&& ReplicaModel::<SM>::restart(id, self.config, machine, applied, state, nonce).room
            },
            Action::Recover { view_number, nonce, .. } => {
                &&& view_number >= self.disks[id as int].kept.shown.view_number
                &&& !self.nonces.contains((id, nonce))
            },
        }
    }

    /// What `action` makes of the replica that steps.
    #[verifier::opaque]
    pub open spec fn stepped(self, action: Action<SM>) -> ReplicaModel<SM> {
        let id = action.replica_id(self);
        let s = self.replicas[id as int];
        match action {
            Action::Client { message, .. } => s.on_message(message, arbitrary()),
            Action::Deliver { index, chunk } => s.on_message(self.sent[index].1, chunk),
            Action::Idle { .. } => s.on_idle(),
            Action::Compact { op_number, .. } => s.compact(op_number),
            Action::TakeWrite { .. } => s.take_write(),
            Action::Persisted { .. } => s.persisted(),
            Action::SendEarly { .. } => ReplicaModel {
                round_unsent: false,
                outbox_early: Seq::empty(),
                ..s
            },
            Action::Send { .. } => ReplicaModel {
                round_unsent: false,
                outbox_early: Seq::empty(),
                outbox_ready: Seq::empty(),
                ..s
            },
            Action::Reply { .. } => ReplicaModel { replies: Seq::empty(), ..s },
            Action::Restart { landed, machine, applied, nonce, .. } => ReplicaModel::restart(
                id,
                self.config,
                machine,
                applied,
                self.disks[id as int].survivor(landed).state,
                nonce,
            ),
            Action::Recover { machine, view_number, nonce, .. } => ReplicaModel::recover(
                id,
                self.config,
                machine,
                view_number,
                nonce,
            ),
        }
    }

    /// What `action` makes of the disk of the replica that steps.
    pub open spec fn written(self, action: Action<SM>) -> Stored<SM::Input> {
        let id = action.replica_id(self);
        let s = self.replicas[id as int];
        let disk = self.disks[id as int];
        let now = self.stepped(action).persistent_state();
        match action {
            Action::TakeWrite { skipped, .. } => Stored {
                out: Some(
                    Kept {
                        state: disk.kept.state.taking(s.write(), skipped),
                        shown: s.persistent_state(),
                    },
                ),
                ..disk
            },
            Action::Persisted { .. } => Stored { kept: disk.out->0, out: None }.refreshed(now),
            Action::SendEarly { .. } | Action::Send { .. } => if shows::<SM>(
                self.config,
                id,
                s.outbox_early,
            ) {
                disk.showing(s.persistent_state())
            } else {
                disk
            },
            Action::Restart { landed, applied, .. } => Stored::with(
                disk.survivor(landed).state,
                applied,
            ),
            Action::Recover { view_number, .. } => Stored::with(
                PersistentView { view_number, recovering: true, ..PersistentView::empty() },
                0,
            ),
            _ => disk.refreshed(now),
        }
    }

    /// The messages sent once `action` has happened.
    pub open spec fn sent_after(self, action: Action<SM>) -> Seq<
        (ReplicaID, MessageViewFor<SM>),
    > {
        let s = self.replicas[action.replica_id(self) as int];
        match action {
            Action::SendEarly { .. } => self.sent + s.outbox_early,
            Action::Send { .. } => self.sent + (s.outbox_early + s.outbox_ready),
            _ => self.sent,
        }
    }

    /// What `action` makes of the cluster.
    pub open spec fn next(self, action: Action<SM>) -> Self {
        let id = action.replica_id(self);
        Cluster {
            replicas: self.replicas.update(id as int, self.stepped(action)),
            disks: self.disks.update(id as int, self.written(action)),
            sent: self.sent_after(action),
            nonces: match action {
                Action::Restart { landed, nonce, .. } => if self.disks[id as int].survivor(
                    landed,
                ).state.recovering {
                    self.nonces.insert((id, nonce))
                } else {
                    self.nonces
                },
                Action::Recover { nonce, .. } => self.nonces.insert((id, nonce)),
                _ => self.nonces,
            },
            ..self
        }
    }
}

/// A run of a cluster: what each action makes of it, from the start.
pub open spec fn is_run<SM: StateMachine>(
    config: ConfigView,
    machines: Seq<SM::State>,
    run: Seq<Cluster<SM>>,
    actions: Seq<Action<SM>>,
) -> bool {
    &&& config.is_cluster()
    &&& run.len() == actions.len() + 1
    &&& run[0] == Cluster::<SM>::init(config, machines)
    &&& forall|k: int|
        0 <= k < actions.len() ==> run[k].can(#[trigger] actions[k]) && run[k + 1] == run[k].next(
            actions[k],
        )
}

} // verus!
