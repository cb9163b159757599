//! What a cluster of replicas keeps, whatever the network does.
//!
//! A run of a cluster ([`run`]) is what its replicas, their owners' disks
//! and the messages sent come to by one action after another. Three things
//! hold of every run: all replicas agree on what is committed
//! ([`agreement`]), a query reads everything that was committed when it
//! arrived ([`reads`]), and what is committed is on the disks of a quorum
//! ([`durability`]). The numbers of each replica keep their order, and between
//! crashes none of them goes back ([`progress`]). No replica finds anything
//! else than what it asserts, as long as the state machines keep their client
//! tables ([`order`]), and replicas that executed the same ops are alike
//! ([`outcomes`]).
//!
//! The proofs follow a [`history`] of what has happened, as nobody in the
//! cluster sees it: the logs of the views, and what each replica has held
//! and acknowledged of them. [`safety`] says what holds of every replica and
//! message in a history, and every step of a replica is shown to keep it.
//! What a replica has done since the others could last know of it is a
//! branch of the history, which a crash may take back.

pub mod history;
pub mod safety;
mod stays;
mod outbox;
pub mod quorums;
mod moves;
mod normal;
mod changes;
mod transfer;
mod idle;
mod recovery;
mod branches;
pub mod rests;
mod lifecycle;
pub mod run;
mod disks;
mod induction;
pub mod agreement;
pub mod reads;
pub mod durability;
pub mod progress;
pub mod outcomes;
pub mod order;
