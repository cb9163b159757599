//! Viewstamped Replication, verified.
//!
//! The protocol is Viewstamped Replication, which Oki and Liskov introduced
//! and Liskov and Cowling revisited.
//!
//! The library does no I/O, keeps no clocks, and starts no threads. A
//! [`Replica`] and a [`Client`] are state machines that their owner steps:
//! hand them incoming messages with `on_message` and `on_reply`, tell them
//! time has passed with `on_idle`, persist the replica's write as described
//! below, and afterwards drain what they want sent with `drain_messages`,
//! `drain_replies`, and `drain`. The owner decides how those get delivered,
//! whether over sockets, through a simulated network, or straight into
//! another replica in a test.
//!
//! # Persistence
//!
//! The protocol keeps its state in memory, and the owner persists the part
//! of it that must survive a crash. After every step, the owner persists
//! the replica's [`LogWrite`]: the view state, and the log entries that
//! changed since the last write. Handing the write back releases what
//! waited for it: acknowledgements and view change messages. An
//! acknowledgement thus leaves only after the entry it covers is on disk. A
//! committed operation executes once a handed-back write holds it: in the
//! step that commits it, if an earlier write does, or else when its own
//! write comes back. A state machine that persists what it executes thus
//! never gets ahead of the log. A replica comes back from a crash with what
//! the owner persisted, a [`PersistentState`], through
//! [`Replica::restart`], and one that lost its disk through
//! [`Replica::recover`].
//!
//! [`Replica::persist`] takes the write with [`Replica::take_write`] and
//! hands it back with [`Replica::persisted`]. An owner that writes while
//! the replica goes on calls the two itself: one write is outstanding at a
//! time, and what the steps in between change waits for the next.
//!
//! # What is proved
//!
//! The state of a replica is a [`ReplicaModel`], and every step's contract
//! says what it makes of it. A step is one the replica can take as long as
//! the model's `ok` holds afterwards: no counter runs past its type, no
//! message breaks what the protocol promises of it, and the state machine
//! takes every call. What holds of a replica over its steps stands in
//! [`replica`], and what holds of a client over its calls in
//! [`client_laws`]. What holds of a cluster stands in [`cluster`]: all
//! replicas agree on what is committed, queries read what was committed when
//! they arrived, what is committed is on the disks of a quorum, and no
//! message breaks what the protocol promises of it, so that only the counters
//! and the state machine are left for `ok`. That holds through power losses
//! at any moment, but for two: that of a replica which told the others of
//! itself in a view that no write of its own records, as the primary of the
//! view or, whether it leads the view or not, with a `NewState` that hands its
//! log over, and that of a state machine which made a checkpoint durable that
//! its replica fetched in such a view.

use vstd::prelude::*;

pub mod bench;
mod client;
pub mod client_laws;
mod client_table;
pub mod cluster;
mod config;
mod duplicate;
mod ids;
mod log;
mod message;
pub mod replica;
pub mod simulator;
mod state_machine;

pub use client::{Client, ClientModel, Completion, InFlight, Outgoing, Queued};
pub use config::{quorums_intersect, Config, ConfigView};
pub use duplicate::{duplicate, exact_clone};
pub use log::{LogBase, LogEntry, LogSegment, LogWrite, PersistentState, PersistentView, SegmentView, WriteView};
pub use message::{Message, MessageFor, MessageView, MessageViewFor, RecoveryState, RecoveryView, Reply};
pub use replica::model::ReplicaModel;
pub use replica::parts::Status;
pub use replica::Replica;
pub use state_machine::{ClientRecord, RecordView, StateCall, StateCallFor, StateMachine};
pub use ids::{ClientID, CommitID, OpNumber, QueryNumber, ReplicaID, RequestNumber, ViewNumber};
