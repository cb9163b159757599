//! Tests of what the benchmarks use.

use vsr_rs::bench::{
    config, decode_entry, encode_entry, finish_step, is_idle_round, run_length, DecodeError, Op,
    StoredEntry, Sum, Tally, Total,
};
use vsr_rs::{Client, Message, MessageFor, Replica, Reply, StateMachine};

fn entry() -> StoredEntry {
    StoredEntry {
        client_id: 12,
        request_number: 7,
        op: Op {
            key: 99_999,
            value: u64::MAX,
        },
    }
}

#[test]
fn entries_are_four_numbers() {
    assert_eq!("12 7 99999 18446744073709551615", encode_entry(&entry()));
    let zero = StoredEntry {
        client_id: 0,
        request_number: 10,
        op: Op { key: 0, value: 100 },
    };
    assert_eq!("0 10 0 100", encode_entry(&zero));
}

#[test]
fn entries_decode_again() {
    assert_eq!(Ok(entry()), decode_entry(&encode_entry(&entry())));
    assert_eq!(
        Ok(entry()),
        decode_entry("  12\t+7 099999\u{a0}18446744073709551615 more")
    );
}

#[test]
fn bad_entries_are_refused() {
    assert_eq!(Err(DecodeError::Truncated), decode_entry(""));
    assert_eq!(Err(DecodeError::Truncated), decode_entry("1 2 3 "));
    assert_eq!(Err(DecodeError::BadNumber), decode_entry("1 2 x"));
    assert_eq!(Err(DecodeError::BadNumber), decode_entry("1 -2 3 4"));
    assert_eq!(Err(DecodeError::BadNumber), decode_entry("1 + 3 4"));
    assert_eq!(
        Err(DecodeError::BadNumber),
        decode_entry("1 2 3 18446744073709551616")
    );
}

#[test]
fn sums_wrap_round() {
    let mut sum = Sum(u64::MAX);
    assert_eq!(4, sum.apply(1, &5));
    assert_eq!(4, sum.query(&Total));
    assert!(sum.client_table().is_empty());
}

#[test]
fn runs_are_long_enough_for_their_idle_periods() {
    assert_eq!(400_000, run_length(400_000, 1));
    assert_eq!(16384 * 51 * 5 / 2, run_length(400_000, 16384));
    assert!(is_idle_round(true, 102));
    assert!(!is_idle_round(true, 103));
    assert!(!is_idle_round(false, 102));
}

#[test]
fn the_tally_counts_prepares_sent_again() {
    let mut tally = Tally::new();
    let prepare = |op_number| -> MessageFor<Sum> {
        Message::Prepare {
            view_number: 0,
            op_number,
            entry: vsr_rs::LogEntry::Register { client_id: 1 },
            commit_number: 0,
        }
    };
    tally.count(1, &prepare(1));
    tally.count(2, &prepare(1));
    tally.count(1, &prepare(2));
    assert_eq!((3, 0), (tally.messages, tally.resends));
    tally.count(1, &prepare(1));
    tally.count(1, &prepare(2));
    assert_eq!((5, 2), (tally.messages, tally.resends));
    let commit: MessageFor<Sum> = Message::Commit {
        view_number: 0,
        commit_number: 1,
    };
    tally.count(1, &commit);
    assert_eq!((6, 2), (tally.messages, tally.resends));
}

#[test]
fn a_round_answers_requests() {
    let config = config();
    assert_eq!(3, config.replicas().len());
    let mut replicas: Vec<Replica<Sum>> = (0..3)
        .map(|id| Replica::new(id, config.clone(), Sum(0)))
        .collect();
    let mut client: Client<u64, Total> = Client::new(0, config);
    client.on_request(41);
    let mut queue = client.drain();
    let mut results = Vec::new();
    for _ in 0..20 {
        for (to, message) in std::mem::take(&mut queue) {
            replicas[to].on_message(message);
        }
        for replica in &mut replicas {
            let (sent, replies) = finish_step(replica, false);
            queue.extend(sent);
            for reply in replies {
                if let Reply::Executed { result, .. } = reply {
                    results.push(result);
                }
                client.on_reply(reply);
                queue.extend(client.drain());
            }
        }
    }
    assert_eq!(vec![41], results);
}
