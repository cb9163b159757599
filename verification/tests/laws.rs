//! What holds of replicas and clusters, on chosen values.

use vsr_rs::simulator::{Accumulator, Chunk, Msg, Op, OpKind, Read};
use vsr_rs::{
    Client, ClientID, Config, LogEntry, Message, PersistentState, Replica, ReplicaID, Reply,
    Status,
};

fn config(replicas: usize) -> Config {
    let mut config = Config::new();
    for _ in 0..replicas {
        config.add_replica();
    }
    config
}

fn replica(id: ReplicaID, config: &Config) -> Replica<Accumulator> {
    Replica::new(id, config.clone(), Accumulator::default())
}

fn register(client_id: ClientID) -> Msg {
    Message::Register { client_id }
}

fn request(client_id: ClientID, session: usize, request_number: usize) -> Msg {
    Message::Request {
        client_id,
        session,
        request_number,
        answered: 0,
        op: Op {
            id: request_number as u64,
            kind: OpKind::Add(1),
        },
    }
}

fn ack(op_number: usize, replica_id: ReplicaID) -> Msg {
    Message::PrepareOk {
        view_number: 0,
        op_number,
        replica_id,
    }
}

fn persist(replica: &mut Replica<Accumulator>, disk: &mut PersistentState<Op>) {
    let write = replica.take_write();
    disk.apply(&write);
    replica.persisted(write);
}

#[test]
fn any_two_quorums_share_a_replica() {
    for size in 3..9 {
        let quorum = config(size).quorum();
        assert!(2 * quorum > size);
        assert!(2 * (quorum - 1) <= size);
    }
}

#[test]
fn primaries_take_turns() {
    let config = config(3);
    let primaries: Vec<ReplicaID> = (0..5).map(|view| config.primary_id(view)).collect();
    assert_eq!(vec![0, 1, 2, 0, 1], primaries);
}

#[test]
fn acknowledgements_wait_for_their_write() {
    let config = config(3);
    let mut backup = replica(1, &config);
    let mut disk = PersistentState::empty();
    backup.on_message(Message::Prepare {
        view_number: 0,
        op_number: 1,
        entry: LogEntry::Register { client_id: 9 },
        commit_number: 0,
    });
    assert!(backup.drain_messages_before_persist().is_empty());
    assert!(backup.drain_messages().is_empty());
    let write = backup.take_write();
    assert!(write.sync);
    assert!(backup.drain_messages().is_empty());
    disk.apply(&write);
    backup.persisted(write);
    let sent = backup.drain_messages();
    assert!(matches!(
        sent.as_slice(),
        [(0, Message::PrepareOk { op_number: 1, .. })]
    ));
    assert_eq!(1, disk.log.len());
}

#[test]
fn a_quorum_acknowledges_what_commits() {
    let config = config(5);
    let mut primary = replica(0, &config);
    let mut disk = PersistentState::empty();
    primary.on_message(register(9));
    persist(&mut primary, &mut disk);
    assert_eq!(0, primary.commit_number());
    primary.on_message(ack(1, 1));
    primary.on_message(ack(1, 1));
    assert_eq!(0, primary.commit_number());
    primary.on_message(ack(1, 2));
    assert_eq!(1, primary.commit_number());
    // The commit number alone needs no sync.
    let write = primary.take_write();
    assert!(!write.sync);
    primary.persisted(write);
}

#[test]
fn committed_ops_execute_once_they_are_durable() {
    let config = config(3);
    let mut primary = replica(0, &config);
    let mut disk = PersistentState::empty();
    primary.on_message(register(9));
    primary.on_message(ack(1, 1));
    primary.on_message(ack(1, 2));
    assert_eq!((1, 0), (primary.commit_number(), primary.applied()));
    assert!(primary.drain_replies().is_empty());
    persist(&mut primary, &mut disk);
    assert_eq!((1, 1), (primary.commit_number(), primary.applied()));
    assert!(matches!(
        primary.drain_replies().as_slice(),
        [Reply::Registered {
            client_id: 9,
            session: 1,
            ..
        }]
    ));
}

/// Commits everything the primary has, with replica 1's help.
fn commit(primary: &mut Replica<Accumulator>, disk: &mut PersistentState<Op>) {
    persist(primary, disk);
    let op_number = primary.op_number();
    primary.on_message(ack(op_number, 1));
}

#[test]
fn the_table_is_in_client_order_and_evicts_the_oldest_session() {
    let mut config = config(3);
    config.set_clients_max(3);
    let mut primary = replica(0, &config);
    let mut disk = PersistentState::empty();
    for client_id in [30, 10, 20] {
        primary.on_message(register(client_id));
        commit(&mut primary, &mut disk);
    }
    // Client 30 has executed something since it registered.
    primary.on_message(request(30, 1, 1));
    commit(&mut primary, &mut disk);
    let ids = |primary: &Replica<Accumulator>| -> Vec<ClientID> {
        primary
            .client_table()
            .iter()
            .map(|record| record.client_id)
            .collect()
    };
    assert_eq!(vec![10, 20, 30], ids(&primary));
    primary.on_message(register(5));
    commit(&mut primary, &mut disk);
    assert_eq!(vec![5, 20, 30], ids(&primary));
    primary.drain_replies();
    // A request of the session evicted never executes.
    let log = primary.log().len();
    primary.on_message(request(10, 2, 1));
    assert_eq!(log, primary.log().len());
    assert!(matches!(
        primary.drain_replies().as_slice(),
        [Reply::Evicted {
            client_id: 10,
            session: 2,
            ..
        }]
    ));
}

#[test]
fn only_the_next_request_of_a_session_is_appended() {
    let config = config(3);
    let mut primary = replica(0, &config);
    let mut disk = PersistentState::empty();
    // No session yet.
    primary.on_message(request(9, 1, 1));
    assert_eq!(0, primary.op_number());
    primary.on_message(register(9));
    commit(&mut primary, &mut disk);
    persist(&mut primary, &mut disk);
    assert_eq!((1, 1), (primary.op_number(), primary.applied()));
    primary.on_message(request(9, 1, 2));
    assert_eq!(1, primary.op_number());
    primary.on_message(request(9, 1, 1));
    assert_eq!(2, primary.op_number());
    primary.on_message(request(9, 1, 1));
    assert_eq!(2, primary.op_number());
    primary.on_message(request(9, 1, 2));
    assert_eq!(3, primary.op_number());
}

#[test]
fn a_sessions_requests_execute_in_order_and_once() {
    let config = config(3);
    let mut primary = replica(0, &config);
    let mut disk = PersistentState::empty();
    primary.on_message(register(9));
    commit(&mut primary, &mut disk);
    persist(&mut primary, &mut disk);
    for request_number in 1..=2 {
        primary.on_message(request(9, 1, request_number));
        commit(&mut primary, &mut disk);
        persist(&mut primary, &mut disk);
    }
    assert_eq!((3, 2), (primary.applied(), primary.state_machine().value));
    primary.drain_replies();
    // What executed is answered again, and does not execute again.
    primary.on_message(request(9, 1, 2));
    assert!(matches!(
        primary.drain_replies().as_slice(),
        [Reply::Executed {
            client_id: 9,
            session: 1,
            request_number: 2,
            ..
        }]
    ));
    commit(&mut primary, &mut disk);
    assert_eq!((3, 2), (primary.applied(), primary.state_machine().value));
}

#[test]
fn committed_ops_are_on_the_disks_of_a_quorum() {
    let config = config(3);
    let mut primary = replica(0, &config);
    let mut backup = replica(1, &config);
    let mut disks = vec![PersistentState::empty(), PersistentState::empty()];
    primary.on_message(register(9));
    for (to, message) in primary.drain_messages_before_persist() {
        if to == 1 {
            backup.on_message(message);
        }
    }
    persist(&mut backup, &mut disks[1]);
    let acks = backup.drain_messages();
    assert_eq!(1, acks.len());
    for (_, message) in acks {
        primary.on_message(message);
    }
    // The primary's own write counts only once it has landed.
    assert_eq!(0, primary.commit_number());
    persist(&mut primary, &mut disks[0]);
    assert_eq!(1, primary.commit_number());
    for disk in &disks {
        assert_eq!(primary.log(), disk.log.as_slice());
    }
}

#[test]
fn a_view_that_was_not_written_is_forgotten() {
    let config = config(3);
    let mut backup = replica(2, &config);
    let mut disk = PersistentState::empty();
    persist(&mut backup, &mut disk);
    backup.on_message(Message::StartViewChange {
        view_number: 1,
        replica_id: 1,
    });
    assert_eq!((Status::ViewChange, 1), (backup.status(), backup.view_number()));
    // Nothing that tells of the view has left.
    assert!(backup.drain_messages_before_persist().is_empty());
    assert!(backup.drain_messages().is_empty());
    let back = Replica::restart(2, config, Accumulator::default(), 0, disk, 5);
    assert_eq!((Status::Normal, 0), (back.status(), back.view_number()));
}

#[test]
fn compaction_drops_only_what_is_applied() {
    let config = config(3);
    let mut primary = replica(0, &config);
    let mut disk = PersistentState::empty();
    for client_id in 0..4 {
        primary.on_message(register(client_id));
    }
    persist(&mut primary, &mut disk);
    primary.on_message(ack(3, 1));
    assert_eq!(3, primary.applied());
    primary.compact(2);
    assert_eq!((2, 2), (primary.log_start(), primary.log().len()));
    primary.compact(100);
    assert_eq!((3, 1), (primary.log_start(), primary.log().len()));
    assert_eq!(4, primary.op_number());
}

#[test]
fn a_restart_gives_back_what_was_written() {
    let config = config(3);
    let mut backup = replica(1, &config);
    let mut disk = PersistentState::empty();
    for op_number in 1..=3 {
        backup.on_message(Message::Prepare {
            view_number: 0,
            op_number,
            entry: LogEntry::Register {
                client_id: op_number,
            },
            commit_number: op_number - 1,
        });
    }
    persist(&mut backup, &mut disk);
    let back = Replica::restart(
        1,
        config.clone(),
        Accumulator::default(),
        0,
        disk.clone(),
        5,
    );
    assert_eq!(backup.log(), back.log());
    assert_eq!(
        (backup.view_number(), backup.commit_number(), backup.applied()),
        (back.view_number(), back.commit_number(), back.applied())
    );
    assert_eq!(Status::Normal, back.status());
    assert_eq!(backup.persistent_state().log, disk.log);
}

#[test]
fn a_recovering_replica_takes_no_part() {
    let config = config(3);
    let mut replica = Replica::recover(2, config, Accumulator::default(), 6, 77);
    assert_eq!(Status::Recovering, replica.status());
    let write = replica.take_write();
    replica.persisted(write);
    assert_eq!(2, replica.drain_messages().len());
    replica.on_message(Message::StartViewChange {
        view_number: 9,
        replica_id: 0,
    });
    replica.on_message(ack(1, 0));
    assert_eq!((Status::Recovering, 6), (replica.status(), replica.view_number()));
    assert!(replica.drain_messages().is_empty());
}

#[test]
fn queries_wait_for_a_round_of_their_view() {
    let config = config(3);
    let mut primary = replica(0, &config);
    primary.on_message(Message::Query {
        client_id: 9,
        query_number: 1,
        query: Read,
    });
    let sent = primary.drain_messages_before_persist();
    assert!(sent
        .iter()
        .all(|(_, message)| matches!(message, Message::ConfirmView { round: 1, .. })));
    assert_eq!(2, sent.len());
    assert!(primary.drain_replies().is_empty());
    // A confirmation of another view does not count.
    primary.on_message(Message::ConfirmViewOk {
        view_number: 1,
        round: 1,
        replica_id: 1,
    });
    assert!(primary.drain_replies().is_empty());
    primary.on_message(Message::ConfirmViewOk {
        view_number: 0,
        round: 1,
        replica_id: 1,
    });
    assert!(matches!(
        primary.drain_replies().as_slice(),
        [Reply::Queried {
            client_id: 9,
            query_number: 1,
            result: 0,
            ..
        }]
    ));
}

/// A cluster whose messages are all delivered, but for those to and from
/// the replicas that are cut off.
fn deliver(
    replicas: &mut [Replica<Accumulator>],
    client: &mut Client<Op, Read>,
    cut_off: &[ReplicaID],
) {
    let mut queue: Vec<(ReplicaID, Msg)> = client.drain();
    loop {
        for id in 0..replicas.len() {
            let replica = &mut replicas[id];
            let write = replica.take_write();
            replica.persisted(write);
            let sent = replica.drain_messages();
            if !cut_off.contains(&id) {
                queue.extend(sent);
            }
            for reply in replica.drain_replies() {
                client.on_reply(reply);
            }
        }
        queue.extend(client.drain());
        if queue.is_empty() {
            return;
        }
        for (to, message) in std::mem::take(&mut queue) {
            if !cut_off.contains(&to) {
                replicas[to].on_message(message);
            }
        }
    }
}

#[test]
fn committed_prefixes_agree_over_a_view_change() {
    let config = config(3);
    let mut replicas: Vec<_> = (0..3).map(|id| replica(id, &config)).collect();
    let mut client: Client<Op, Read> = Client::new(4, config.clone());
    let op = |id| Op {
        id,
        kind: OpKind::Add(id as i64),
    };
    client.on_request(op(1));
    deliver(&mut replicas, &mut client, &[]);
    // The primary prepares an op that reaches nobody.
    client.on_request(op(2));
    for (to, message) in client.drain::<Chunk>() {
        replicas[to].on_message(message);
    }
    deliver(&mut replicas, &mut client, &[0]);
    for _ in 0..10 {
        replicas[1].on_idle();
        replicas[2].on_idle();
        client.on_idle();
        deliver(&mut replicas, &mut client, &[0]);
    }
    assert_eq!(1, replicas[1].view_number());
    client.on_request(op(3));
    for _ in 0..10 {
        for replica in &mut replicas {
            replica.on_idle();
        }
        client.on_idle();
        deliver(&mut replicas, &mut client, &[]);
    }
    let committed: Vec<usize> = replicas.iter().map(|replica| replica.commit_number()).collect();
    assert_eq!(committed[0], committed[1]);
    assert_eq!(committed[1], committed[2]);
    assert!(committed[0] >= 4);
    assert_eq!(replicas[0].log(), replicas[1].log());
    assert_eq!(replicas[1].log(), replicas[2].log());
    assert!(replicas
        .iter()
        .all(|replica| replica.state_machine().value == 6));
}

#[test]
fn an_eviction_ends_what_was_issued() {
    let config = config(3);
    let mut client: Client<Op, Read> = Client::new(4, config);
    let op = |id| Op {
        id,
        kind: OpKind::Add(1),
    };
    client.on_request(op(1));
    client.drain::<Chunk>();
    client.on_reply(Reply::<i64>::Registered {
        view_number: 0,
        client_id: 4,
        session: 1,
    });
    assert_eq!(Some(1), client.session());
    assert!(client
        .drain::<Chunk>()
        .iter()
        .any(|(_, message)| matches!(message, Message::Request { request_number: 1, .. })));
    let evicted = Reply::<i64>::Evicted {
        view_number: 0,
        client_id: 4,
        session: 1,
    };
    assert!(client.on_reply(evicted).is_some());
    // A late reply completes nothing, and the request is not sent again.
    let late = Reply::Executed {
        view_number: 0,
        client_id: 4,
        session: 1,
        request_number: 1,
        result: 1i64,
    };
    assert!(client.on_reply(late).is_none());
    for _ in 0..20 {
        client.on_idle();
        assert!(!client
            .drain::<Chunk>()
            .iter()
            .any(|(_, message)| matches!(message, Message::Request { .. })));
    }
}

#[test]
fn replicas_that_executed_the_same_ops_are_alike() {
    let config = config(3);
    let mut replicas: Vec<_> = (0..3).map(|id| replica(id, &config)).collect();
    let mut client: Client<Op, Read> = Client::new(4, config.clone());
    for id in 1..=5 {
        client.on_request(Op {
            id,
            kind: OpKind::Add(id as i64),
        });
        deliver(&mut replicas, &mut client, &[]);
        // Replica 2 hears of what committed later than replica 1.
        replicas[0].on_idle();
        deliver(&mut replicas, &mut client, &[2]);
    }
    for _ in 0..10 {
        for replica in &mut replicas {
            replica.on_idle();
        }
        deliver(&mut replicas, &mut client, &[]);
    }
    for other in &replicas[1..] {
        assert_eq!(6, other.applied());
        assert_eq!(replicas[0].applied(), other.applied());
        assert_eq!(replicas[0].state_machine().value, other.state_machine().value);
        assert_eq!(
            format!("{:?}", replicas[0].client_table()),
            format!("{:?}", other.client_table())
        );
    }
    assert_eq!(15, replicas[0].state_machine().value);
}

#[test]
fn a_reply_carries_the_output_at_its_op() {
    let config = config(3);
    let mut primary = replica(0, &config);
    let mut disk = PersistentState::empty();
    primary.on_message(register(9));
    commit(&mut primary, &mut disk);
    primary.drain_replies();
    for request_number in 1..=3 {
        primary.on_message(request(9, 1, request_number));
        commit(&mut primary, &mut disk);
        // The output of an op is how many have been applied.
        assert_eq!(
            vec![Reply::Executed {
                view_number: 0,
                client_id: 9,
                session: 1,
                request_number,
                result: request_number as i64,
            }],
            primary.drain_replies()
        );
    }
}

#[test]
fn requests_stay_in_order_over_a_view_change() {
    let config = config(3);
    let mut replicas: Vec<_> = (0..3).map(|id| replica(id, &config)).collect();
    let mut client: Client<Op, Read> = Client::new(4, config.clone());
    let op = |id| Op {
        id,
        kind: OpKind::Add(id as i64),
    };
    client.on_request(op(1));
    deliver(&mut replicas, &mut client, &[]);
    // Three requests are in flight when the primary is cut off.
    for id in 2..=4 {
        client.on_request(op(id));
    }
    for (to, message) in client.drain::<Chunk>() {
        replicas[to].on_message(message);
    }
    for _ in 0..10 {
        replicas[1].on_idle();
        replicas[2].on_idle();
        client.on_idle();
        deliver(&mut replicas, &mut client, &[0]);
    }
    client.on_request(op(5));
    for _ in 0..10 {
        for replica in &mut replicas {
            replica.on_idle();
        }
        client.on_idle();
        deliver(&mut replicas, &mut client, &[]);
    }
    for replica in &replicas {
        let numbers: Vec<usize> = replica
            .log()
            .iter()
            .filter_map(|entry| match entry {
                LogEntry::Request { request_number, .. } => Some(*request_number),
                LogEntry::Register { .. } => None,
            })
            .collect();
        assert_eq!(vec![1, 2, 3, 4, 5], numbers);
        assert_eq!(replica.op_number(), replica.applied());
        assert_eq!(15, replica.state_machine().value);
    }
}
