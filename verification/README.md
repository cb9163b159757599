# Viewstamped Replication, verified

A replication protocol that lets a group of servers act as a single reliable
service, written in Rust and verified with Verus. The library does no I/O,
keeps no clocks, and starts no threads: its owner hands messages and idle
periods to a `Replica` or a `Client`, persists what a replica asks to have
persisted, and delivers what they want sent.

## Layout

- `src/client.rs`, `src/config.rs`, `src/log.rs`, `src/message.rs`,
  `src/state_machine.rs`: clients, the cluster's configuration, log entries
  and writes, messages, and the interface to the replicated state machine.
- `src/client_laws.rs`: what is true of a client over its calls: requests are
  numbered and sent in order, each is answered once, and what went unanswered
  is sent again.
- `src/client_table.rs`: the sessions a replica keeps, over hash maps from
  `foldhash` and std, whose contracts are stated and not proved.
- `src/replica/`: replicas. `model.rs` says what every step makes of a
  replica's state, and the executable steps are proved against it. `life.rs`
  says what a replica goes through from one crash to the next.
  `persistence_laws.rs`, `mail_laws.rs`, `checkpoint_laws.rs`,
  `execution_laws.rs`, `session_laws.rs` and `outcomes.rs` hold what is true
  over a life: nothing committed is lost or changed, replaying the writes
  rebuilds the state, promises wait for their write, a checkpoint is kept as
  long as it is asked for, a session's requests execute in order and once,
  and what executes decides the state machine, the client table and the
  replies.
- `src/cluster/`: what is true of a cluster. `run.rs` says what can happen to
  one: messages are lost, delayed, reordered and duplicated, views change,
  writes take their time, and replicas lose power or their disks.
  `agreement.rs` states that all replicas agree on what is committed, at all
  times, `progress.rs` that the numbers of a replica keep their order and only
  go up, `reads.rs` that a query sees all that was committed when it arrived,
  `durability.rs` that what is committed is on the disks of a quorum,
  `order.rs` that no replica finds anything else than what it asserts, and
  `outcomes.rs` that replicas which executed the same ops are alike. The
  other files hold the proofs.
- `src/simulator/`: the parts of a simulated cluster: a state machine that
  records its history, disks, a network, and the properties checked of them.
- `src/bench/`: what the benchmarks measure.
- `app/`: the benchmarks and a small simulation, which draw on clocks, files,
  threads and chance.
- `tests/`: the library at work.

## Crashes

What is proved of a cluster holds for replicas that lose power at any moment,
with a write that was out landed or not, but for two things.

- Some messages leave before a write. A replica that tells of itself in one,
  in a view that no write of its own records, and loses power before one
  does, comes back to an earlier view, and may lead or join the same view
  again with another log. A replica tells of itself with a `Prepare`, a
  `Commit` or a `ConfirmView`, which it sends as the primary of the view,
  with a `GetState` of a view that it is to lead, and, whether it leads the
  view or not, with a `NewState`, which hands its log over. An owner that
  holds such messages back until the view is written rules that out.
- A state machine that makes a checkpoint durable which the replica fetched
  in a view that no write records, and loses power before one does, comes
  back with ops that the replica cannot vouch for in the view it comes back
  to. One that was recovering recovers again, and may keep the checkpoint.

A replica that loses its disk must know a view no earlier than any it was in
as far as the others may know.
