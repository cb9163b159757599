//! A simulated cluster's parts: the state machine its replicas run, their
//! disks, the network between them, and the properties checked of them.

mod answer_properties;
pub mod context;
mod disk;
mod model;
mod network;
mod promise;
mod properties;
mod state_machine;
mod state_property;
mod violation;

pub use answer_properties::{Convergence, LinearizableQueries, NoDuplicateOps, RepliesMatchCommits};
pub use context::{Answer, SimContext};
pub use disk::{Chances, Disk, DiskView, Step};
pub use model::{Model, ModelView};
pub use network::{message_kind, Envelope, Fate, MessageSummary, Network, NetworkView, Origin, ReplicaId};
pub use promise::{message_sort, message_view, DurablePromise};
pub use properties::{CommitNumberMonotonic, CommittedPrefixAgreement, Durability, ExecutedOpsDurable};
pub use state_property::StateMatchesCommittedLog;
pub use violation::{MessageKind, Violation};
pub use state_machine::{Accumulator, Chunk, Msg, Op, OpKind, Read};
