//! What holds of a replica or a client from one step to the next, on chosen
//! values.

use vsr_rs::simulator::{Accumulator, Chunk, Msg, Op, OpKind, Read};
use vsr_rs::{
    Client, ClientID, Completion, Config, LogBase, LogEntry, Message, PersistentState, Replica,
    ReplicaID, Reply, Status,
};

fn config(replicas: usize) -> Config {
    let mut config = Config::new();
    for _ in 0..replicas {
        config.add_replica();
    }
    config
}

fn replica(id: ReplicaID, config: &Config) -> Replica<Accumulator> {
    Replica::new(id, config.clone(), Accumulator::default())
}

fn ack(op_number: usize, replica_id: ReplicaID) -> Msg {
    Message::PrepareOk {
        view_number: 0,
        op_number,
        replica_id,
    }
}

fn prepare(op_number: usize, commit_number: usize) -> Msg {
    Message::Prepare {
        view_number: 0,
        op_number,
        entry: LogEntry::Register {
            client_id: op_number,
        },
        commit_number,
    }
}

/// Takes the write, applies it to the disk, and checks that the disk then
/// holds what the replica held.
fn write(replica: &mut Replica<Accumulator>, disk: &mut PersistentState<Op>) {
    let held = replica.persistent_state();
    let write = replica.take_write();
    disk.apply(&write);
    assert_eq!(held, *disk);
    replica.persisted(write);
}

#[test]
fn replicas_are_numbered_by_their_index() {
    let mut config = Config::new();
    config.set_primary_timeout(7);
    config.set_clients_max(11);
    config.set_in_flight_max(5);
    for id in 0..4 {
        assert_eq!(id, config.add_replica());
    }
    assert_eq!([0, 1, 2, 3].as_slice(), config.replicas());
    assert_eq!(
        (7, 11, 5),
        (
            config.primary_timeout(),
            config.clients_max(),
            config.in_flight_max()
        )
    );
}

#[test]
fn the_wait_for_a_view_doubles_every_time() {
    let mut config = config(3);
    config.set_primary_timeout(1);
    let mut replica = replica(1, &config);
    while replica.status() != Status::ViewChange {
        replica.on_idle();
    }
    let mut waits = Vec::new();
    for _ in 0..13 {
        let view_number = replica.view_number();
        let mut waited = 0;
        while replica.view_number() == view_number {
            replica.on_idle();
            waited += 1;
        }
        waits.push(waited);
    }
    let doubled: Vec<i32> = (0..13).map(|attempts| 1 << attempts).collect();
    assert_eq!(doubled, waits);
}

#[test]
fn replaying_the_writes_rebuilds_the_state() {
    let config = config(3);
    let mut backup = replica(1, &config);
    let mut disk = PersistentState::empty();
    backup.on_message(prepare(1, 0));
    write(&mut backup, &mut disk);
    // What changes while a write is out is in the next.
    backup.on_message(prepare(2, 1));
    let out = backup.take_write();
    disk.apply(&out);
    backup.on_message(prepare(3, 2));
    backup.persisted(out);
    assert_eq!(2, backup.applied());
    write(&mut backup, &mut disk);
    backup.compact(1);
    write(&mut backup, &mut disk);
    assert_eq!((1, 2), (disk.log_start, disk.log.len()));
    backup.on_message(Message::StartViewChange {
        view_number: 2,
        replica_id: 2,
    });
    write(&mut backup, &mut disk);
    assert_eq!((2, 0), (disk.view_number, disk.last_normal_view));
}

#[test]
fn the_writes_after_a_restart_go_on_from_the_disk() {
    let config = config(3);
    let mut disk = PersistentState::empty();
    let mut primary = replica(0, &config);
    primary.on_message(Message::Register { client_id: 9 });
    write(&mut primary, &mut disk);
    primary.on_message(ack(1, 2));
    write(&mut primary, &mut disk);
    // The primary starts the next view when it is back.
    let mut back = Replica::restart(
        0,
        config.clone(),
        Accumulator::default(),
        0,
        disk.clone(),
        5,
    );
    assert_eq!((1, 1), (back.view_number(), back.applied()));
    write(&mut back, &mut disk);
    assert_eq!(1, disk.view_number);
    let mut lost = Replica::recover(0, config, Accumulator::default(), 1, 6);
    let mut disk = PersistentState::empty();
    write(&mut lost, &mut disk);
    assert!(disk.recovering);
}

#[test]
fn a_write_that_fails_stays_out() {
    let config = config(3);
    let mut backup = replica(1, &config);
    backup.on_message(prepare(1, 0));
    assert_eq!(Err("full"), backup.persist(|_| Err("full")));
    assert!(backup.drain_messages().is_empty());
    let mut other = replica(1, &config);
    other.on_message(prepare(1, 0));
    assert_eq!(Ok::<(), &str>(()), other.persist(|_| Ok(())));
    assert_eq!(1, other.drain_messages().len());
}

#[test]
fn executed_ops_are_on_the_disk() {
    let config = config(3);
    let mut backup = replica(1, &config);
    let mut disk = PersistentState::empty();
    let mut landed = disk.clone();
    for op_number in 1..=4 {
        backup.on_message(prepare(op_number, op_number));
        assert_eq!(landed.log_start + landed.log.len(), backup.applied());
        write(&mut backup, &mut disk);
        landed = disk.clone();
        assert_eq!(op_number, backup.applied());
        assert_eq!(backup.log(), landed.log.as_slice());
    }
}

#[test]
fn each_message_leaves_once_its_write_is_back() {
    let config = config(3);
    let mut backup = replica(1, &config);
    backup.on_message(prepare(1, 0));
    // The second acknowledgement stands for the first.
    backup.on_message(prepare(2, 0));
    let first = backup.take_write();
    // One for a write that is out stays, and a third is queued behind it.
    backup.on_message(prepare(3, 0));
    assert!(backup.drain_messages_before_persist().is_empty());
    assert!(backup.drain_messages().is_empty());
    backup.persisted(first);
    assert!(matches!(
        backup.drain_messages().as_slice(),
        [(0, Message::PrepareOk { op_number: 2, .. })]
    ));
    assert!(backup.drain_messages().is_empty());
    // A request for what is missing promises nothing, and leaves at once.
    backup.on_message(prepare(9, 0));
    assert!(matches!(
        backup.drain_messages_before_persist().as_slice(),
        [(0, Message::GetState { op_number: 3, .. })]
    ));
    let second = backup.take_write();
    assert!(backup.drain_messages().is_empty());
    backup.persisted(second);
    assert!(matches!(
        backup.drain_messages().as_slice(),
        [(0, Message::PrepareOk { op_number: 3, .. })]
    ));
    assert!(backup.drain_messages().is_empty());
}

#[test]
fn a_checkpoint_is_kept_for_twice_the_timeout() {
    let config = config(3);
    let timeout = config.primary_timeout();
    let mut primary = replica(0, &config);
    let mut disk = PersistentState::empty();
    for client_id in 0..3 {
        primary.on_message(Message::Register { client_id });
    }
    write(&mut primary, &mut disk);
    primary.on_message(ack(3, 1));
    primary.compact(3);
    let ask: Msg = Message::GetState {
        replica_id: 2,
        view_number: 0,
        op_number: 0,
    };
    primary.drain_messages_before_persist();
    primary.on_message(ask.clone());
    let sent = primary.drain_messages_before_persist();
    assert_eq!(1, sent.len());
    match &sent[0].1 {
        Message::NewState { segment, .. } => assert_eq!(LogBase::Checkpoint(3), segment.base),
        _ => panic!("no state"),
    }
    primary.on_message(Message::Register { client_id: 7 });
    write(&mut primary, &mut disk);
    primary.on_message(ack(4, 1));
    assert_eq!(4, primary.applied());
    for _ in 1..2 * timeout {
        primary.on_idle();
        // A request for the log does not keep the checkpoint any longer.
        primary.on_message(ask.clone());
        primary.compact(100);
        assert_eq!(3, primary.log_start());
    }
    primary.on_idle();
    primary.compact(100);
    assert_eq!(4, primary.log_start());
}

#[test]
fn a_chunk_asked_for_keeps_the_checkpoint() {
    let config = config(3);
    let timeout = config.primary_timeout();
    let mut primary = replica(0, &config);
    let mut disk = PersistentState::empty();
    primary.on_message(Message::Register { client_id: 1 });
    write(&mut primary, &mut disk);
    primary.on_message(ack(1, 1));
    primary.compact(1);
    primary.on_message(Message::GetState {
        replica_id: 2,
        view_number: 0,
        op_number: 0,
    });
    primary.on_message(Message::Register { client_id: 2 });
    write(&mut primary, &mut disk);
    primary.on_message(ack(2, 1));
    for _ in 1..2 * timeout {
        primary.on_idle();
    }
    primary.on_message(Message::GetChunk {
        replica_id: 2,
        op_number: 1,
        index: 0,
    });
    for _ in 1..2 * timeout {
        primary.on_idle();
    }
    primary.compact(100);
    assert_eq!(1, primary.log_start());
    primary.on_idle();
    primary.compact(100);
    assert_eq!(2, primary.log_start());
}

const CLIENT: ClientID = 4;

fn op(id: u64) -> Op {
    Op {
        id,
        kind: OpKind::Add(1),
    }
}

/// A client of a cluster of three that may have two requests in flight, with
/// session 1.
fn client() -> Client<Op, Read> {
    let mut config = config(3);
    config.set_in_flight_max(2);
    let mut client: Client<Op, Read> = Client::new(CLIENT, config);
    client.register();
    client.drain::<Chunk>();
    assert_eq!(None, client.on_reply(registered(1)));
    assert!(client.drain::<Chunk>().is_empty());
    client
}

fn registered(session: usize) -> Reply<i64> {
    Reply::Registered {
        view_number: 0,
        client_id: CLIENT,
        session,
    }
}

fn executed(request_number: usize) -> Reply<i64> {
    Reply::Executed {
        view_number: 0,
        client_id: CLIENT,
        session: 1,
        request_number,
        result: 10 * request_number as i64,
    }
}

/// The numbers of the requests that the client sends, in order.
fn sent_requests(client: &mut Client<Op, Read>) -> Vec<usize> {
    client
        .drain::<Chunk>()
        .into_iter()
        .filter_map(|(_, message)| match message {
            Message::Request { request_number, .. } => Some(request_number),
            _ => None,
        })
        .collect()
}

#[test]
fn requests_and_queries_are_numbered_in_order() {
    let mut client = client();
    for number in 1..=5 {
        assert_eq!(number, client.on_request(op(number as u64)));
        assert_eq!(number, client.on_query(Read));
    }
    assert_eq!(
        Some(Completion::Evicted),
        client.on_reply(Reply::<i64>::Evicted {
            view_number: 0,
            client_id: CLIENT,
            session: 1,
        })
    );
    // Requests start over, queries do not.
    assert_eq!(1, client.on_request(op(6)));
    assert_eq!(6, client.on_query(Read));
}

#[test]
fn requests_are_sent_in_order_within_the_window() {
    let mut client = client();
    for number in 1..=5 {
        client.on_request(op(number));
    }
    assert_eq!(vec![1, 2], sent_requests(&mut client));
    // The window starts with the first request that has no reply.
    client.on_reply(executed(2));
    assert!(sent_requests(&mut client).is_empty());
    client.on_reply(executed(1));
    assert_eq!(vec![3, 4], sent_requests(&mut client));
    client.on_reply(executed(3));
    assert_eq!(vec![5], sent_requests(&mut client));
}

#[test]
fn a_request_is_answered_once() {
    let mut client = client();
    client.on_request(op(1));
    client.on_request(op(2));
    assert_eq!(
        Some(Completion::Executed(2, 20)),
        client.on_reply(executed(2))
    );
    assert_eq!(None, client.on_reply(executed(2)));
    assert_eq!(
        Some(Completion::Executed(1, 10)),
        client.on_reply(executed(1))
    );
    assert_eq!(None, client.on_reply(executed(1)));
    assert_eq!(None, client.on_reply(executed(2)));
}

#[test]
fn what_goes_unanswered_is_sent_again_to_every_replica() {
    let mut client = client();
    client.on_request(op(1));
    client.on_request(op(2));
    assert_eq!(vec![1, 2], sent_requests(&mut client));
    client.on_reply(executed(1));
    // A request is given a whole idle period to be answered in.
    client.on_idle();
    assert!(client.drain::<Chunk>().is_empty());
    client.on_idle();
    let again = client.drain::<Chunk>();
    let to: Vec<ReplicaID> = again.iter().map(|(to, _)| *to).collect();
    assert_eq!(vec![0, 1, 2], to);
    assert!(again.iter().all(|(_, message)| matches!(
        message,
        Message::Request {
            session: 1,
            request_number: 2,
            answered: 1,
            ..
        }
    )));
    client.on_idle();
    assert!(client.drain::<Chunk>().is_empty());
}

#[test]
fn only_so_many_rounds_are_out() {
    let config = config(3);
    let mut primary = replica(0, &config);
    let mut rounds = Vec::new();
    let mut ask = |primary: &mut Replica<Accumulator>, query_number: usize| {
        primary.on_message(Message::Query {
            client_id: CLIENT,
            query_number,
            query: Read,
        });
        for (to, message) in primary.drain_messages_before_persist() {
            if let (1, Message::ConfirmView { round, .. }) = (to, message) {
                rounds.push(round);
            }
        }
    };
    for query_number in 1..=40 {
        ask(&mut primary, query_number);
    }
    // Confirming one makes room for one more, which the rest wait for.
    primary.on_message(Message::ConfirmViewOk {
        view_number: 0,
        round: 1,
        replica_id: 1,
    });
    ask(&mut primary, 41);
    ask(&mut primary, 42);
    assert_eq!((1..=33).collect::<Vec<u64>>(), rounds);
    assert_eq!(1, primary.drain_replies().len());
}
