//! Tests of the simulated cluster's parts: the state machine, the disks, the
//! network, and the properties.

use std::collections::VecDeque;
use vsr_rs::simulator::{
    message_kind, Accumulator, Answer, Chances, CommitNumberMonotonic, CommittedPrefixAgreement,
    Convergence, Disk, Durability, DurablePromise, ExecutedOpsDurable, Fate, LinearizableQueries,
    MessageKind, Model, Msg, Network, NoDuplicateOps, Op, OpKind, Origin, Read, RepliesMatchCommits, ReplicaId,
    SimContext, StateMatchesCommittedLog, Step, Violation,
};
use vsr_rs::{
    Client, Completion, Config, LogEntry, Message, Replica, ReplicaID, Reply, StateMachine, Status,
};

const PERSISTS: Chances = Chances {
    power_lost: false,
    lands: true,
    stays_out: false,
};

fn config(replicas: usize) -> Config {
    let mut config = Config::new();
    for _ in 0..replicas {
        config.add_replica();
    }
    config
}

fn add(id: u64, value: i64) -> Op {
    Op {
        id,
        kind: OpKind::Add(value),
    }
}

/// Three replicas with disks, a client, and a network that delivers
/// everything.
struct Sim {
    config: Config,
    replicas: Vec<Replica<Accumulator>>,
    disks: Vec<Disk>,
    client: Client<Op, Read>,
    queue: VecDeque<(ReplicaID, Msg)>,
    replies: Vec<Reply<i64>>,
    completions: Vec<Completion<i64>>,
    committed: Vec<LogEntry<Op>>,
    model: Model,
}

impl Sim {
    fn new() -> Sim {
        let config = config(3);
        Sim {
            replicas: (0..3)
                .map(|id| Replica::new(id, config.clone(), Accumulator::default()))
                .collect(),
            disks: (0..3).map(|_| Disk::default()).collect(),
            client: Client::new(7, config.clone()),
            queue: VecDeque::new(),
            replies: Vec::new(),
            completions: Vec::new(),
            committed: Vec::new(),
            model: Model::default(),
            config,
        }
    }

    fn send_client(&mut self) {
        self.queue.extend(self.client.drain());
    }

    fn step(&mut self, id: usize, chances: Chances) -> Step {
        let mut sent = Vec::new();
        let mut replies = Vec::new();
        let step = self.disks[id]
            .step(
                &mut self.replicas[id],
                chances,
                |disk, replica, _, message| {
                    DurablePromise.on_send(replica.id(), replica, disk, message)
                },
                &mut sent,
                &mut replies,
            )
            .expect("every message is backed");
        self.queue.extend(sent);
        for reply in replies {
            self.replies.push(reply.clone());
            if let Some(completion) = self.client.on_reply(reply) {
                self.completions.push(completion);
            }
        }
        self.send_client();
        step
    }

    fn run(&mut self) {
        self.send_client();
        loop {
            for id in 0..3 {
                assert_eq!(Step::Persisted, self.step(id, PERSISTS));
                self.record(id);
            }
            if self.queue.is_empty() {
                return;
            }
            while let Some((to, message)) = self.queue.pop_front() {
                self.replicas[to].on_message(message);
            }
        }
    }

    /// Records what replica `id` has committed, as the first to do so.
    fn record(&mut self, id: usize) {
        let replica = &self.replicas[id];
        while self.committed.len() < replica.commit_number() {
            let index = self.committed.len() - replica.log_start();
            self.committed.push(replica.log()[index].clone());
        }
        self.model
            .feed(&self.config, 1, &self.committed)
            .expect("the log is in order");
    }

    fn idle(&mut self) {
        for replica in &mut self.replicas {
            replica.on_idle();
        }
        self.run();
    }

    fn request(&mut self, op: Op) {
        self.client.on_request(op);
        self.run();
    }

    fn ctx<'a>(&'a self, answers: &'a [Answer], core: &'a [usize]) -> SimContext<'a> {
        SimContext {
            tick: 1,
            config: &self.config,
            model: &self.model,
            replicas: &self.replicas,
            disks: &self.disks,
            committed: &self.committed,
            replies: &self.replies,
            answers,
            core,
        }
    }
}

#[test]
fn operations_wrap_round() {
    assert_eq!(5, OpKind::Add(2).apply(3));
    assert_eq!(1, OpKind::Sub(2).apply(3));
    assert_eq!(i64::MIN, OpKind::Add(1).apply(i64::MAX));
    assert_eq!(i64::MAX, OpKind::Sub(1).apply(i64::MIN));
}

#[test]
fn accumulator_counts_and_keeps_its_table() {
    let mut accumulator = Accumulator::default();
    assert_eq!(1, accumulator.apply(1, &add(10, 4)));
    assert_eq!(2, accumulator.apply(3, &add(11, 5)));
    assert_eq!(9, accumulator.value);
    assert_eq!(2, accumulator.query(&Read));
    assert_eq!(2, accumulator.applied.len());
}

#[test]
fn checkpoint_chunks_restore_the_state() {
    let mut source = Accumulator::default();
    for n in 0..50 {
        source.apply(n + 1, &add(n as u64, n as i64));
        source.record_client(n + 1, 3, None);
    }
    let op_number = source.checkpoint();
    assert_eq!(50, op_number);
    // The checkpoint stays as it was while the state goes on.
    source.apply(51, &add(99, 1000));
    let mut target = Accumulator::default();
    let mut index = 0;
    loop {
        let (chunk, last) = source.checkpoint_chunk(index);
        target.stage_chunk(op_number, index, chunk);
        if last {
            break;
        }
        index += 1;
    }
    target.restore(op_number);
    assert_eq!(50, target.applied.len());
    assert_eq!((0..50).sum::<i64>(), target.value);
    source.release_checkpoint();
}

#[test]
fn disk_steps_persist_lose_power_and_keep_writes_out() {
    let mut sim = Sim::new();
    sim.request(add(1, 5));
    assert!(sim
        .completions
        .iter()
        .any(|completion| matches!(completion, Completion::Executed(1, 1))));
    assert!(sim.disks[0].matches(&sim.replicas[0]));
    assert_eq!(2, sim.replicas[0].op_number());

    // A request whose write stays out: memory is ahead of the disk.
    sim.client.on_request(add(2, 6));
    for (to, message) in sim.client.drain::<vsr_rs::simulator::Chunk>() {
        sim.replicas[to].on_message(message);
    }
    let stays_out = Chances {
        stays_out: true,
        ..PERSISTS
    };
    assert_eq!(Step::WriteOut, sim.step(0, stays_out));
    assert!(!sim.disks[0].matches(&sim.replicas[0]));
    assert!(sim.disks[0].outstanding.is_some());
    let keeps_out = Chances {
        lands: false,
        ..stays_out
    };
    assert_eq!(Step::WriteOut, sim.step(0, keeps_out));
    assert_eq!(2, sim.disks[0].state.log.len());

    // A crash lands the write whole, or not at all.
    let mut lost = sim.disks[0].clone();
    assert_eq!(Some(false), lost.crash(false));
    assert_eq!(2, lost.state.log.len());
    assert_eq!(None, lost.crash(true));
    let mut landed = sim.disks[0].clone();
    assert_eq!(Some(true), landed.crash(true));
    assert_eq!(3, landed.state.log.len());
    let entry = sim.replicas[0].log()[2].clone();
    assert!(landed.holds(3, &entry));
    assert!(!lost.holds(3, &entry));

    // Power is lost before any write.
    let power_lost = Chances {
        power_lost: true,
        ..PERSISTS
    };
    assert_eq!(Step::PowerLost, sim.step(1, power_lost));
}

#[test]
fn disk_restarts_a_replica_from_its_flush() {
    let mut sim = Sim::new();
    for n in 1..=4 {
        sim.request(add(n, 1));
    }
    sim.idle();
    let replica = &sim.replicas[1];
    assert_eq!(5, replica.applied());
    let mut disk = sim.disks[1].clone();
    disk.flush_up_to(replica, 3);
    assert_eq!(3, disk.applied);
    assert_eq!(2, disk.state_machine.value);
    disk.flush_up_to(replica, 2);
    assert_eq!(3, disk.applied);
    let back = disk.restart(1, sim.config.clone(), 9);
    assert_eq!(5, back.op_number());
    assert_eq!(Status::Normal, back.status());
    disk.flush(replica);
    assert_eq!(5, disk.applied);
    assert_eq!(4, disk.state_machine.value);
    assert!(disk.holds(5, &LogEntry::Register { client_id: 99 }));
    // A primary that restarts asks for the next view.
    let back = sim.disks[0].restart(0, sim.config.clone(), 9);
    assert_eq!(Status::ViewChange, back.status());
    assert_eq!(1, back.view_number());
}

#[test]
fn disk_for_recovery_recovers() {
    let disk = Disk::for_recovery(4);
    assert!(disk.state.recovering);
    let replica = disk.restart(2, config(3), 11);
    assert_eq!(Status::Recovering, replica.status());
    assert_eq!(4, replica.view_number());
    assert!(!disk.restored(&replica));
}

fn prepare(op_number: usize) -> Msg {
    Message::Prepare {
        view_number: 0,
        op_number,
        entry: LogEntry::Register { client_id: 1 },
        commit_number: 0,
    }
}

fn fate(delay: u64) -> Fate {
    Fate {
        lost: false,
        replay: None,
        delay,
    }
}

fn op_numbers(network: &mut Network, now: u64) -> Vec<usize> {
    network
        .take_due(now)
        .into_iter()
        .map(|envelope| match envelope.message {
            Message::Prepare { op_number, .. } => op_number,
            _ => panic!("only prepares are sent"),
        })
        .collect()
}

#[test]
fn network_delivers_in_order_of_delay() {
    let mut network = Network::new(1, false);
    let from = Origin::Replica(0);
    network.send(0, from, 1, prepare(1), fate(5));
    network.send(0, from, 1, prepare(2), fate(1));
    network.send(0, from, 1, prepare(3), fate(5));
    assert_eq!(3, network.pending());
    assert_eq!(2, network.summary.delayed);
    assert_eq!(Vec::<usize>::new(), op_numbers(&mut network, 0));
    assert_eq!(vec![2], op_numbers(&mut network, 4));
    assert_eq!(vec![1, 3], op_numbers(&mut network, 5));
    assert_eq!(3, network.summary.delivered);
    assert_eq!(0, network.pending());
}

#[test]
fn network_loses_and_replays() {
    let mut network = Network::new(1, false);
    let from = Origin::Replica(0);
    let lost = Fate {
        lost: true,
        replay: Some(3),
        delay: 1,
    };
    network.send(0, from, 1, prepare(1), lost);
    assert_eq!(0, network.pending());
    assert_eq!(1, network.summary.lost);
    let replayed = Fate {
        lost: false,
        replay: Some(3),
        delay: 1,
    };
    network.send(0, from, 1, prepare(2), replayed);
    assert_eq!(2, network.in_flight().len());
    assert_eq!(1, network.summary.replayed);
    assert_eq!(vec![2], op_numbers(&mut network, 2));
    assert_eq!(vec![2], op_numbers(&mut network, 3));
    // Faults apply to clients' messages only if they are meant to.
    let register: Msg = Message::Register { client_id: 3 };
    assert!(!network.faults_apply(&register));
    assert!(network.faults_apply(&prepare(1)));
    network.send(7, Origin::Client(3), 0, register, lost);
    assert_eq!(1, network.take_due(7).len());
    network.set_options(1, true);
    assert!(network.faults_apply(&Message::Register { client_id: 3 }));
}

#[test]
fn network_holds_replies_when_faults_apply_to_clients() {
    let reply = Reply::Registered {
        view_number: 0,
        client_id: 3,
        session: 1,
    };
    let mut network = Network::new(1, false);
    assert!(network.send_reply(0, reply.clone(), fate(4)).is_some());
    assert_eq!(0, network.pending());
    network.set_options(1, true);
    assert!(network.send_reply(0, reply.clone(), fate(4)).is_none());
    let lost = Fate {
        lost: true,
        replay: None,
        delay: 1,
    };
    assert!(network.send_reply(0, reply, lost).is_none());
    assert_eq!(1, network.pending());
    assert_eq!(0, network.take_due_replies(3).len());
    assert_eq!(1, network.take_due_replies(4).len());
}

#[test]
fn messages_have_kinds() {
    let id: ReplicaId = 1;
    assert_eq!(1, id);
    assert_eq!("Prepare", message_kind(&prepare(1)));
    let message: Msg = Message::StartViewChange {
        view_number: 3,
        replica_id: 1,
    };
    assert_eq!("StartViewChange", message_kind(&message));
    assert_eq!(3, vsr_rs::simulator::message_view(&message));
    let message: Msg = Message::Register { client_id: 4 };
    assert_eq!(0, vsr_rs::simulator::message_view(&message));
}

#[test]
fn unbacked_promises_are_found() {
    let sim = Sim::new();
    let mut promise = DurablePromise;
    assert_eq!("durable-promise", promise.name());
    let disk = &sim.disks[0].state;
    let ahead: Msg = Message::StartViewChange {
        view_number: 2,
        replica_id: 0,
    };
    assert_eq!(
        Err(Violation::Unbacked {
            replica_id: 0,
            kind: MessageKind::StartViewChange,
            view_number: 2,
            disk_view: 0,
            last_normal_view: 0,
            op_number: 0,
            recovering: false,
        }),
        promise.on_send(0, &sim.replicas[0], disk, &ahead)
    );
    // An acknowledgement of an op that the disk does not hold.
    let ack: Msg = Message::PrepareOk {
        view_number: 0,
        op_number: 1,
        replica_id: 0,
    };
    assert!(promise.on_send(0, &sim.replicas[0], disk, &ack).is_err());
    assert_eq!(Ok(()), promise.on_send(0, &sim.replicas[0], disk, &prepare(1)));
}

fn request(client_id: usize, session: usize, request_number: usize, op: Op) -> LogEntry<Op> {
    LogEntry::Request {
        client_id,
        session,
        request_number,
        answered: 0,
        op,
    }
}

#[test]
fn model_takes_requests_in_their_session_and_order() {
    let mut model = Model::default();
    let log = vec![
        LogEntry::Register { client_id: 1 },
        request(1, 1, 1, add(1, 5)),
        // Not this client's session: it does not execute.
        request(1, 9, 1, add(2, 5)),
        request(1, 1, 3, add(3, 5)),
    ];
    assert_eq!(Ok(()), model.feed(&config(3), 2, &log[..3]));
    assert_eq!(
        Err(Violation::RequestOutOfOrder {
            tick: 2,
            op_number: 4,
            client_id: 1,
            session: 1,
            request_number: 3,
            after: 1,
        }),
        model.feed(&config(3), 2, &log)
    );
}

#[test]
fn a_sound_run_passes_every_property() {
    let mut sim = Sim::new();
    for n in 1..=5 {
        sim.request(add(n, n as i64));
    }
    sim.client.on_query(Read);
    sim.run();
    sim.idle();
    let answers = vec![Answer {
        tick: 1,
        client_id: 7,
        query_number: 1,
        floor: 5,
        own: 5,
        result: 5,
    }];
    assert!(sim
        .completions
        .iter()
        .any(|completion| matches!(completion, Completion::Queried(_, 5))));
    let core = [0, 1, 2];
    let ctx = sim.ctx(&answers, &core);
    let mut durability = Durability::default();
    assert_eq!(Ok(()), durability.before_steps(&ctx));
    assert_eq!(Ok(()), durability.check(&ctx));
    assert_eq!(Ok(()), ExecutedOpsDurable::default().check(&ctx));
    assert_eq!(Ok(()), CommitNumberMonotonic::default().check(&ctx));
    let mut state = StateMatchesCommittedLog::default();
    assert_eq!(Ok(()), state.check(&ctx));
    assert_eq!(Ok(()), state.check(&ctx));
    assert_eq!(Ok(()), CommittedPrefixAgreement::default().check(&ctx));
    assert_eq!(Ok(()), NoDuplicateOps::default().check(&ctx));
    let mut replies = RepliesMatchCommits::default();
    assert_eq!(Ok(()), replies.check(&ctx));
    assert_eq!(Ok(()), replies.finalize(&ctx));
    assert_eq!(Ok(()), LinearizableQueries::default().check(&ctx));
    assert_eq!(Ok(()), Convergence.finalize(&ctx));
}

#[test]
fn properties_have_names() {
    assert_eq!("durability", Durability::default().name());
    assert_eq!("executed-ops-durable", ExecutedOpsDurable::default().name());
    assert_eq!(
        "commit-number-monotonic",
        CommitNumberMonotonic::default().name()
    );
    assert_eq!(
        "state-matches-committed-log",
        StateMatchesCommittedLog::default().name()
    );
    assert_eq!(
        "committed-prefix-agreement",
        CommittedPrefixAgreement::default().name()
    );
    assert_eq!("no-duplicate-ops", NoDuplicateOps::default().name());
    assert_eq!("replies-match-commits", RepliesMatchCommits::default().name());
    assert_eq!("linearizable-queries", LinearizableQueries::default().name());
    assert_eq!("convergence", Convergence.name());
}

#[test]
fn lost_commits_are_found() {
    let mut sim = Sim::new();
    sim.request(add(1, 5));
    let mut durability = Durability::default();
    // Two disks that lost everything leave too few copies.
    sim.disks[1] = Disk::default();
    sim.disks[2] = Disk::default();
    let core = [0];
    assert_eq!(
        Err(Violation::NotDurable {
            tick: 1,
            replica_id: 0,
            op_number: 1,
            copies: 1,
            participants: 3,
            needed: 2,
        }),
        durability.check(&sim.ctx(&[], &core))
    );
    // A disk that recovers counts on neither side.
    sim.disks[1] = Disk::for_recovery(0);
    sim.disks[2] = Disk::for_recovery(0);
    assert_eq!(Ok(()), durability.check(&sim.ctx(&[], &core)));
    durability.on_restart(0);
    sim.disks[0] = Disk::for_recovery(0);
    assert_eq!(Ok(()), durability.check(&sim.ctx(&[], &core)));
}

#[test]
fn executed_ops_off_the_disk_are_found() {
    let mut sim = Sim::new();
    sim.request(add(1, 5));
    let mut property = ExecutedOpsDurable::default();
    sim.disks[0] = Disk::default();
    let core = [0];
    assert_eq!(
        Err(Violation::ExecutedNotDurable {
            tick: 1,
            replica_id: 0,
            op_number: 1,
        }),
        property.check(&sim.ctx(&[], &core))
    );
    property.on_restart(0);
    let Sim {
        disks, replicas, ..
    } = &mut sim;
    disks[0].flush(&replicas[0]);
    assert_eq!(Ok(()), property.check(&sim.ctx(&[], &core)));
}

#[test]
fn a_commit_number_that_goes_back_is_found() {
    let mut sim = Sim::new();
    sim.request(add(1, 5));
    let mut property = CommitNumberMonotonic::default();
    let core = [0];
    assert_eq!(Ok(()), property.check(&sim.ctx(&[], &core)));
    sim.replicas[0] = Replica::new(0, sim.config.clone(), Accumulator::default());
    assert_eq!(
        Err(Violation::CommitWentBack {
            tick: 1,
            replica_id: 0,
            before: 2,
            commit_number: 0,
        }),
        property.check(&sim.ctx(&[], &core))
    );
    property.on_restart(0);
    assert_eq!(Ok(()), property.check(&sim.ctx(&[], &core)));
}

#[test]
fn states_that_differ_from_the_log_are_found() {
    let mut sim = Sim::new();
    sim.request(add(1, 5));
    sim.idle();
    let core = [0];
    // The log recorded executes something else.
    let committed = sim.committed.clone();
    let mut other = committed.clone();
    other[1] = request(7, 1, 1, add(2, 6));
    sim.model = Model::default();
    sim.model.feed(&sim.config, 1, &other).unwrap();
    assert_eq!(
        Err(Violation::ExecutedOther {
            tick: 1,
            replica_id: 0,
            position: 0,
        }),
        StateMatchesCommittedLog::default().check(&sim.ctx(&[], &core))
    );
    // It executes less than the replica did.
    sim.model = Model::default();
    sim.model.feed(&sim.config, 1, &committed[..1]).unwrap();
    assert_eq!(
        Err(Violation::ExecutedCount {
            tick: 1,
            replica_id: 0,
            executed: 1,
            expected: 0,
        }),
        StateMatchesCommittedLog::default().check(&sim.ctx(&[], &core))
    );
    // It makes another client table.
    let mut other = committed.clone();
    other.push(LogEntry::Register { client_id: 8 });
    sim.model = Model::default();
    sim.model.feed(&sim.config, 1, &other[..2]).unwrap();
    assert_eq!(
        Ok(()),
        StateMatchesCommittedLog::default().check(&sim.ctx(&[], &core))
    );
}

#[test]
fn commits_that_differ_are_found() {
    let mut sim = Sim::new();
    sim.request(add(1, 5));
    let core = [0];
    sim.committed[1] = request(7, 1, 1, add(2, 6));
    let mut property = CommittedPrefixAgreement::default();
    assert_eq!(
        Err(Violation::CommittedOther {
            tick: 1,
            replica_id: 0,
            op_number: 2,
        }),
        property.check(&sim.ctx(&[], &core))
    );
    property.on_restart(0);
    assert!(property.check(&sim.ctx(&[], &core)).is_err());
}

#[test]
fn operations_that_commit_twice_are_found() {
    let mut sim = Sim::new();
    sim.request(add(1, 5));
    let mut property = NoDuplicateOps::default();
    assert_eq!(Ok(()), property.check(&sim.ctx(&[], &[0])));
    sim.committed.push(request(7, 1, 2, add(1, 5)));
    assert_eq!(
        Err(Violation::CommittedTwice {
            tick: 1,
            op_number: 3,
            id: 1,
        }),
        property.check(&sim.ctx(&[], &[0]))
    );
}

#[test]
fn replies_that_do_not_match_are_found() {
    let mut sim = Sim::new();
    sim.request(add(1, 5));
    let check = |sim: &mut Sim, reply: Reply<i64>| {
        sim.replies = vec![reply];
        RepliesMatchCommits::default().check(&sim.ctx(&[], &[0]))
    };
    assert_eq!(
        Err(Violation::UnknownSession {
            tick: 1,
            client_id: 7,
            session: 2,
        }),
        check(
            &mut sim,
            Reply::Registered {
                view_number: 0,
                client_id: 7,
                session: 2,
            }
        )
    );
    let executed = |request_number, result| Reply::Executed {
        view_number: 0,
        client_id: 7,
        session: 1,
        request_number,
        result,
    };
    assert_eq!(
        Err(Violation::NotExecuted {
            tick: 1,
            client_id: 7,
            session: 1,
            request_number: 2,
        }),
        check(&mut sim, executed(2, 2))
    );
    assert_eq!(
        Err(Violation::WrongResult {
            tick: 1,
            client_id: 7,
            session: 1,
            request_number: 1,
            result: 4,
            expected: 1,
        }),
        check(&mut sim, executed(1, 4))
    );
    assert_eq!(
        Err(Violation::NotEvicted {
            tick: 1,
            client_id: 7,
            session: 1,
        }),
        check(
            &mut sim,
            Reply::Evicted {
                view_number: 0,
                client_id: 7,
                session: 1,
            }
        )
    );
    assert_eq!(Ok(()), check(&mut sim, executed(1, 1)));
    assert_eq!(
        Err(Violation::NoReply {
            client_id: 7,
            session: 1,
            request_number: 1,
        }),
        RepliesMatchCommits::default().finalize(&sim.ctx(&[], &[0]))
    );
}

#[test]
fn stale_queries_are_found() {
    let mut sim = Sim::new();
    sim.request(add(1, 5));
    let answer = Answer {
        tick: 4,
        client_id: 7,
        query_number: 1,
        floor: 1,
        own: 0,
        result: 0,
    };
    assert_eq!(
        Err(Violation::StaleQuery {
            tick: 4,
            client_id: 7,
            query_number: 1,
            result: 0,
            executed: 1,
        }),
        LinearizableQueries::default().check(&sim.ctx(&[answer], &[0]))
    );
    let ahead = Answer {
        floor: 0,
        result: 2,
        ..answer
    };
    assert!(LinearizableQueries::default()
        .check(&sim.ctx(&[ahead], &[0]))
        .is_err());
}

#[test]
fn clusters_that_have_not_converged_are_found() {
    let mut sim = Sim::new();
    sim.request(add(1, 5));
    sim.idle();
    let all = [0, 1, 2];
    assert_eq!(Ok(()), Convergence.finalize(&sim.ctx(&[], &all)));
    let committed = std::mem::take(&mut sim.committed);
    assert_eq!(
        Err(Violation::DifferentEntry {
            replica_id: 0,
            op_number: 1,
        }),
        Convergence.finalize(&sim.ctx(&[], &all))
    );
    sim.committed = committed;
    sim.replicas[2] = Replica::new(2, sim.config.clone(), Accumulator::default());
    assert_eq!(
        Err(Violation::DifferentOpNumber {
            replica_id: 2,
            op_number: 0,
            reference: 2,
        }),
        Convergence.finalize(&sim.ctx(&[], &all))
    );
    // A primary that has prepared an op it has not committed.
    sim.client.on_request(add(2, 5));
    for (to, message) in sim.client.drain::<vsr_rs::simulator::Chunk>() {
        sim.replicas[to].on_message(message);
    }
    assert_eq!(
        Err(Violation::Uncommitted {
            replica_id: 0,
            commit_number: 2,
            op_number: 3,
        }),
        Convergence.finalize(&sim.ctx(&[], &[0]))
    );
}

#[test]
fn a_step_ends_with_what_its_owner_answers() {
    let mut sim = Sim::new();
    sim.client.on_request(add(1, 5));
    sim.send_client();
    while let Some((to, message)) = sim.queue.pop_front() {
        sim.replicas[to].on_message(message);
    }
    // The primary sends its prepare to one backup after the other, and the
    // owner holds the second back.
    let mut sent = Vec::new();
    let mut replies = Vec::new();
    let result = sim.disks[0].step(
        &mut sim.replicas[0],
        PERSISTS,
        |_, _, to, _| if to == 2 { Err(to) } else { Ok(()) },
        &mut sent,
        &mut replies,
    );
    assert_eq!(Err(2), result);
    assert_eq!(1, sent.len());
    assert_eq!(1, sent[0].0);
    assert!(matches!(sent[0].1, Message::Prepare { op_number: 1, .. }));
    assert!(replies.is_empty());
}
