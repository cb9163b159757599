use vstd::prelude::*;

verus! {

/// Identifies a client. Every client must have its own, and a client that
/// restarts must not reuse one: the primary answers its registration with
/// the session the old one had.
pub type ClientID = usize;

/// The number of log entries that are committed. The entries at op numbers
/// up to it never change.
pub type CommitID = usize;

/// The position of an entry in the log, counted from 1. A replica's op
/// number is that of its last entry.
pub type OpNumber = usize;

/// Identifies a replica: its index in the configuration's list of replicas.
pub type ReplicaID = usize;

/// Numbers the requests of one session, from 1, one more for every
/// request. The client table keeps the latest per session to spot
/// re-sends.
pub type RequestNumber = usize;

/// Numbers the queries of one client, from 1, one more for every query.
pub type QueryNumber = usize;

/// Numbers the views. The primary of view `v` is replica `v` modulo the
/// number of replicas, so the view number says who leads.
pub type ViewNumber = usize;

} // verus!
