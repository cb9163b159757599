//! What executing a log makes of a replica.

use vstd::prelude::*;
use super::frames::frame_execute_entries;
use super::model::{keep_last, max, min, pending_of, ReplicaModel};
use super::sessions::{
    in_order, in_order_add, is_next, keys_differ, lawful, lawful_appends, lawful_is_in_order,
    lawful_takes, marks, marks_keep_clients, marks_keep_the_oldest, may_append, next_sessions, pending_is_last,
    sessions_after, sessions_from, sessions_from_add,
};
use crate::client_table::oldest_session;
use crate::config::ConfigView;
use crate::ids::{ClientID, OpNumber, RequestNumber};
use crate::log::LogEntry;
use crate::state_machine::{RecordView, StateCall, StateMachine};

verus! {

/// A state machine and the client table beside it.
#[verifier::ext_equal]
pub struct Made<SM: StateMachine> {
    pub machine: SM::State,
    pub records: Map<ClientID, RecordView<SM::Output>>,
}

/// What executing `entry` as op `op_number` makes of a state machine and its
/// client table.
pub open spec fn made_next<SM: StateMachine>(
    config: ConfigView,
    made: Made<SM>,
    op_number: OpNumber,
    entry: LogEntry<SM::Input>,
) -> Made<SM> {
    let records = made.records;
    let record = |machine: SM::State, client_id: ClientID, record: Option<RecordView<SM::Output>>|
        SM::step(machine, StateCall::RecordClient { op_number, client_id, record });
    match entry {
        LogEntry::Register { client_id } => if records.contains_key(client_id) {
            Made { machine: record(made.machine, client_id, Some(records[client_id])), records }
        } else {
            let room = if records.dom().len() >= config.clients_max {
                let evicted = oldest_session(records);
                Made {
                    machine: record(made.machine, evicted, None),
                    records: records.remove(evicted),
                }
            } else {
                made
            };
            let opened = RecordView {
                client_id,
                session: op_number,
                request_number: 0,
                replies: Seq::empty(),
                op_number,
            };
            Made {
                machine: record(room.machine, client_id, Some(opened)),
                records: room.records.insert(client_id, opened),
            }
        },
        LogEntry::Request { client_id, session, request_number, answered, op } => {
            if !records.contains_key(client_id) {
                Made { machine: record(made.machine, client_id, None), records }
            } else if records[client_id].session != session {
                Made { machine: record(made.machine, client_id, Some(records[client_id])), records }
            } else {
                let result = SM::output(made.machine, op_number, op);
                let kept = min(max(request_number - answered, 1), config.in_flight_max as int);
                let next = RecordView {
                    request_number,
                    replies: keep_last(records[client_id].replies.push(result), kept),
                    op_number,
                    ..records[client_id]
                };
                Made {
                    machine: record(
                        SM::step(made.machine, StateCall::Apply { op_number, input: op }),
                        client_id,
                        Some(next),
                    ),
                    records: records.insert(client_id, next),
                }
            }
        },
    }
}

/// What executing `entries`, the ops after `start`, makes of a state machine
/// and its client table.
pub open spec fn made_from<SM: StateMachine>(
    config: ConfigView,
    made: Made<SM>,
    start: int,
    entries: Seq<LogEntry<SM::Input>>,
) -> Made<SM>
    decreases entries.len(),
{
    if entries.len() == 0 {
        made
    } else {
        made_next(
            config,
            made_from(config, made, start, entries.drop_last()),
            (start + entries.len()) as OpNumber,
            entries.last(),
        )
    }
}

pub proof fn made_from_add<SM: StateMachine>(
    config: ConfigView,
    made: Made<SM>,
    start: int,
    a: Seq<LogEntry<SM::Input>>,
    b: Seq<LogEntry<SM::Input>>,
)
    ensures
        made_from(config, made, start, a + b) == made_from(
            config,
            made_from(config, made, start, a),
            start + a.len(),
            b,
        ),
    decreases b.len(),
{
    if b.len() == 0 {
        assert(a + b =~= a);
    } else {
        assert((a + b).drop_last() =~= a + b.drop_last());
        made_from_add(config, made, start, a, b.drop_last());
        assert(start + (a + b).len() == start + a.len() + b.len());
    }
}

impl<SM: StateMachine> ReplicaModel<SM> {
    /// The state machine and its client table.
    pub open spec fn made(self) -> Made<SM> {
        Made { machine: self.machine, records: self.records }
    }

    /// The entries that have not executed.
    pub open spec fn tail(self) -> Seq<LogEntry<SM::Input>> {
        self.log.skip(self.applied - self.log_start)
    }

    /// The latest entry of each client that has not executed.
    pub open spec fn tail_pending(self) -> Map<ClientID, (OpNumber, RequestNumber)> {
        pending_of(self.tail(), self.applied as int)
    }

    /// Whether every entry that the replica takes to be pending is.
    pub open spec fn pending_ok(self) -> bool {
        forall|client_id: ClientID| #[trigger]
            self.pending.contains_key(client_id) ==> self.tail_pending().contains_key(client_id)
                && self.tail_pending()[client_id] == self.pending[client_id]
    }

    /// Whether the replica misses a pending entry of `client_id`.
    pub open spec fn misses(self, client_id: ClientID) -> bool {
        self.tail_pending().contains_key(client_id) && !self.pending.contains_key(client_id)
    }

    /// Whether the replica can execute its log on.
    pub open spec fn can_run(self) -> bool {
        &&& self.config.is_cluster()
        &&& self.records.dom().finite()
        &&& self.log_start <= self.applied <= self.commit_number
        &&& self.applied <= self.op_number() < usize::MAX
    }
}

/// The entries that a step from `s` to `t` executes.
pub open spec fn run_of<SM: StateMachine>(s: ReplicaModel<SM>, t: ReplicaModel<SM>) -> Seq<
    LogEntry<SM::Input>,
> {
    t.log.subrange(s.applied - t.log_start, t.applied - t.log_start)
}

/// Whether an entry of `client_id` with `key` is among `entries`, the ops
/// after `start`.
pub open spec fn ran<Op>(
    entries: Seq<LogEntry<Op>>,
    start: int,
    client_id: ClientID,
    key: (OpNumber, RequestNumber),
) -> bool {
    exists|i: int|
        0 <= i < entries.len() && (#[trigger] entries[i]).client() == client_id && entries[i].key(
            (start + i + 1) as OpNumber,
        ) == key
}

/// Whether a step from `s` to `t` keeps track of the entries pending: it
/// comes to miss only entries that it takes for ones that it executes.
pub open spec fn tracks<SM: StateMachine>(s: ReplicaModel<SM>, t: ReplicaModel<SM>) -> bool {
    s.pending_ok() ==> {
        &&& t.pending_ok()
        &&& forall|client_id: ClientID| #[trigger]
            t.misses(client_id) ==> {
                ||| s.misses(client_id) && s.tail_pending()[client_id]
                    == t.tail_pending()[client_id]
                ||| ran(
                    run_of(s, t),
                    s.applied as int,
                    client_id,
                    t.tail_pending()[client_id],
                )
            }
    }
}

/// Whether a step from `s` to `t` executes its log, if it restores no
/// checkpoint: its sessions are what the entries executed make of them, and
/// it fits the order of their requests if those are in order.
#[verifier::opaque]
pub open spec fn executes<SM: StateMachine>(s: ReplicaModel<SM>, t: ReplicaModel<SM>) -> bool {
    s.can_run() && t.log_start <= s.applied ==> {
        &&& t.can_run()
        &&& t.config == s.config
        &&& s.applied <= t.applied
        &&& t.fits ==> s.fits
        &&& marks(t.records) == sessions_from(
            s.config.clients_max as nat,
            marks(s.records),
            s.applied as int,
            run_of(s, t),
        )
        &&& s.ok && t.fits && in_order(
            s.config.clients_max as nat,
            marks(s.records),
            s.applied as int,
            run_of(s, t),
        ) ==> t.ok
        &&& tracks(s, t)
    }
}

/// Whether a step from `s` to `t` makes of the state machine what the entries
/// that it executes do, if no checkpoint is kept.
#[verifier::opaque]
pub open spec fn works<SM: StateMachine>(s: ReplicaModel<SM>, t: ReplicaModel<SM>) -> bool {
    s.can_run() && t.can_run() && t.log_start <= s.applied && s.serving is None && t.serving is None
        ==> t.made() == made_from(s.config, s.made(), s.applied as int, run_of(s, t))
}

/// A step that executes nothing.
pub broadcast proof fn executes_nothing<SM: StateMachine>(s: ReplicaModel<SM>, t: ReplicaModel<SM>)
    requires
        t.config == s.config,
        t.records == s.records,
        t.pending == s.pending,
        t.applied == s.applied,
        t.commit_number >= s.commit_number,
        t.log == s.log,
        t.log_start == s.log_start,
        t.fits ==> s.fits,
        s.ok && t.fits ==> t.ok,
    ensures
        #[trigger] executes(s, t),
{
    reveal(executes);
    if s.can_run() && t.log_start <= s.applied {
        assert(run_of(s, t) =~= Seq::empty());
    }
}

/// A step that does nothing to the state machine.
pub broadcast proof fn works_nothing<SM: StateMachine>(s: ReplicaModel<SM>, t: ReplicaModel<SM>)
    requires
        t.records == s.records,
        t.applied == s.applied,
        s.serving is None && t.serving is None ==> t.machine == s.machine,
    ensures
        #[trigger] works(s, t),
{
    reveal(works);
    if s.can_run() && t.can_run() && t.log_start <= s.applied {
        assert(run_of(s, t) =~= Seq::empty());
    }
}

/// A step that restores a checkpoint executes nothing.
pub broadcast proof fn restores_anew<SM: StateMachine>(s: ReplicaModel<SM>, t: ReplicaModel<SM>)
    requires
        t.log_start > s.applied,
    ensures
        #[trigger] executes(s, t),
        works(s, t),
{
    reveal(executes);
    reveal(works);
}

/// Appending an entry executes nothing.
pub broadcast proof fn executes_append<SM: StateMachine>(
    s: ReplicaModel<SM>,
    entry: LogEntry<SM::Input>,
)
    requires
        s.append_to_log(entry).fits,
    ensures
        #[trigger] executes(s, s.append_to_log(entry)),
{
    reveal(executes);
    let t = s.append_to_log(entry);
    if s.can_run() && t.log_start <= s.applied {
        assert(run_of(s, t) =~= Seq::empty());
        let tail = t.tail();
        assert(tail =~= s.tail().push(entry));
        assert(tail.drop_last() =~= s.tail());
        assert(s.applied + tail.len() == s.op_number() + 1);
    }
}

/// Replacing entries that have not executed executes nothing.
pub broadcast proof fn executes_merge<SM: StateMachine>(
    s: ReplicaModel<SM>,
    start: OpNumber,
    entries: Seq<LogEntry<SM::Input>>,
)
    requires
        s.merge_log(start, entries).fits,
    ensures
        #[trigger] executes(s, s.merge_log(start, entries)),
{
    reveal(executes);
    let t = s.merge_log(start, entries);
    if s.can_run() && t.log_start <= s.applied {
        assert(run_of(s, t) =~= Seq::empty());
    }
}

/// Compacting executes nothing.
pub proof fn executes_compact<SM: StateMachine>(s: ReplicaModel<SM>, op_number: OpNumber)
    ensures
        executes(s, s.compact(op_number)),
        works(s, s.compact(op_number)),
{
    reveal(executes);
    reveal(works);
    let t = s.compact(op_number);
    if s.can_run() && t.log_start <= s.applied {
        assert(run_of(s, t) =~= Seq::empty());
        assert(t.tail() =~= s.tail());
    }
}

/// The sessions after an entry are what the entry makes of them.
proof fn execute_marks<SM: StateMachine>(s: ReplicaModel<SM>)
    requires
        s.can_run(),
        s.applied < s.op_number(),
    ensures
        ({
            let t = s.execute_next();
            let entry = s.entry(s.applied + 1);
            &&& t.records.dom().finite()
            &&& t.fits ==> s.fits
            &&& marks(t.records) == next_sessions(
                s.config.clients_max as nat,
                marks(s.records),
                (s.applied + 1) as OpNumber,
                entry,
            )
            &&& s.ok && t.fits && is_next(marks(s.records), entry) ==> t.ok
            &&& t.made() == made_next(
                s.config,
                s.made(),
                (s.applied + 1) as OpNumber,
                entry,
            )
        }),
{
    let t = s.execute_next();
    let op_number = (s.applied + 1) as OpNumber;
    marks_keep_clients(s.records);
    let next = next_sessions(
        s.config.clients_max as nat,
        marks(s.records),
        op_number,
        s.entry(s.applied + 1),
    );
    match s.entry(s.applied + 1) {
        LogEntry::Register { client_id } => {
            if !s.records.contains_key(client_id) {
                if s.records.dom().len() >= s.config.clients_max {
                    marks_keep_the_oldest(s.records);
                    let evicted = oldest_session(s.records);
                    assert(marks(s.records.remove(evicted)) =~= marks(s.records).remove(evicted));
                }
                assert(marks(t.records) =~= next);
            }
        },
        LogEntry::Request { client_id, .. } => {
            assert(marks(t.records) =~= next);
        },
    }
}

/// What executing the first entry does to the entries pending.
proof fn execute_tracks<SM: StateMachine>(s: ReplicaModel<SM>)
    requires
        s.can_run(),
        s.applied < s.op_number(),
    ensures
        tracks(s, s.execute_next()),
{
    let t = s.execute_next();
    let entry = s.entry(s.applied + 1);
    let client_id = entry.client();
    let key = entry.key((s.applied + 1) as OpNumber);
    let tail = s.tail();
    assert(tail[0] == entry);
    assert(t.tail() =~= tail.skip(1));
    assert(t.pending == s.settle(client_id, key).pending);
    pending_without_first(tail, s.applied as int);
    let run = run_of(s, t);
    assert(run =~= seq![entry]);
    assert(run[0].client() == client_id && run[0].key((s.applied + 1) as OpNumber) == key);
    assert(ran(run, s.applied as int, client_id, key));
    if s.pending_ok() {
        assert forall|c: ClientID| #[trigger] t.pending.contains_key(c) implies t.tail_pending().contains_key(
            c,
        ) && t.tail_pending()[c] == t.pending[c] by {
            assert(s.pending.contains_key(c));
        }
        assert forall|c: ClientID| #[trigger] t.misses(c) implies {
            ||| s.misses(c) && s.tail_pending()[c] == t.tail_pending()[c]
            ||| ran(run, s.applied as int, c, t.tail_pending()[c])
        } by {
            if s.pending.contains_key(c) {
                assert(c == client_id && s.pending[c] == key);
            }
        }
    }
}

/// What is pending without the first entry.
proof fn pending_without_first<Op>(entries: Seq<LogEntry<Op>>, start: int)
    requires
        entries.len() > 0,
    ensures
        ({
            let rest = pending_of(entries.skip(1), start + 1);
            let all = pending_of(entries, start);
            &&& forall|c: ClientID| #[trigger]
                rest.contains_key(c) ==> all.contains_key(c) && all[c] == rest[c]
            &&& forall|c: ClientID| #[trigger]
                all.contains_key(c) && !rest.contains_key(c) ==> c == entries[0].client() && all[c]
                    == entries[0].key((start + 1) as OpNumber)
        }),
    decreases entries.len(),
{
    if entries.len() == 1 {
        assert(entries.skip(1) =~= Seq::empty());
        assert(entries.drop_last() =~= Seq::empty());
        reveal_with_fuel(pending_of, 2);
    } else {
        let before = entries.drop_last();
        pending_without_first(before, start);
        assert(entries.skip(1).drop_last() =~= before.skip(1));
        assert(entries.skip(1).last() == entries.last());
        assert(before[0] == entries[0]);
        let rest = pending_of(entries.skip(1), start + 1);
        let all = pending_of(entries, start);
        let less = pending_of(before.skip(1), start + 1);
        assert forall|c: ClientID| #[trigger]
            all.contains_key(c) && !rest.contains_key(c) implies c == entries[0].client() && all[c]
            == entries[0].key((start + 1) as OpNumber) by {
            assert(!less.contains_key(c));
            assert(pending_of(before, start).contains_key(c));
        }
        assert forall|c: ClientID| #[trigger] rest.contains_key(c) implies all.contains_key(c)
            && all[c] == rest[c] by {
            if c != entries.last().client() {
                assert(less.contains_key(c));
            }
        }
        assert(start + entries.len() == start + 1 + entries.skip(1).len());
    }
}

/// Steps that execute one after the other.
pub proof fn executes_trans<SM: StateMachine>(
    s: ReplicaModel<SM>,
    t: ReplicaModel<SM>,
    u: ReplicaModel<SM>,
)
    requires
        executes(s, t),
        executes(t, u),
        t.log_start <= u.log_start,
        forall|op_number: int|
            u.log_start < op_number && op_number <= t.commit_number && op_number <= t.op_number()
                ==> op_number <= u.op_number() && #[trigger] u.entry(op_number) == t.entry(
                op_number,
            ),
    ensures
        executes(s, u),
{
    reveal(executes);
    if s.can_run() && u.log_start <= s.applied {
        let clients_max = s.config.clients_max as nat;
        let (a, b) = (run_of(s, t), run_of(t, u));
        runs_add(s, t, u);
        sessions_from_add(clients_max, marks(s.records), s.applied as int, a, b);
        in_order_add(clients_max, marks(s.records), s.applied as int, a, b);
        if s.pending_ok() {
            assert forall|c: ClientID| #[trigger] u.misses(c) implies {
                ||| s.misses(c) && s.tail_pending()[c] == u.tail_pending()[c]
                ||| ran(run_of(s, u), s.applied as int, c, u.tail_pending()[c])
            } by {
                let key = u.tail_pending()[c];
                if ran(b, t.applied as int, c, key) {
                    let i = choose|i: int|
                        0 <= i < b.len() && (#[trigger] b[i]).client() == c && b[i].key(
                            (t.applied + i + 1) as OpNumber,
                        ) == key;
                    assert(run_of(s, u)[a.len() + i] == b[i]);
                } else if ran(a, s.applied as int, c, key) {
                    let i = choose|i: int|
                        0 <= i < a.len() && (#[trigger] a[i]).client() == c && a[i].key(
                            (s.applied + i + 1) as OpNumber,
                        ) == key;
                    assert(run_of(s, u)[i] == a[i]);
                }
            }
        }
    }
}

/// What two steps execute is what the one does and then what the other does.
proof fn runs_add<SM: StateMachine>(
    s: ReplicaModel<SM>,
    t: ReplicaModel<SM>,
    u: ReplicaModel<SM>,
)
    requires
        t.log_start <= u.log_start <= s.applied <= t.applied <= u.applied,
        t.can_run(),
        u.can_run(),
        forall|op_number: int|
            u.log_start < op_number && op_number <= t.commit_number && op_number <= t.op_number()
                ==> op_number <= u.op_number() && #[trigger] u.entry(op_number) == t.entry(
                op_number,
            ),
    ensures
        run_of(s, u) == run_of(s, t) + run_of(t, u),
        run_of(s, t).len() == t.applied - s.applied,
{
    let (a, b, c) = (run_of(s, t), run_of(t, u), run_of(s, u));
    assert forall|i: int| 0 <= i < c.len() implies c[i] == (a + b)[i] by {
        let op_number = s.applied + i + 1;
        assert(c[i] == u.entry(op_number));
        if i < a.len() {
            assert(a[i] == t.entry(op_number));
        }
    }
    assert(c =~= a + b);
}

/// Steps that work one after the other.
pub proof fn works_trans<SM: StateMachine>(
    s: ReplicaModel<SM>,
    t: ReplicaModel<SM>,
    u: ReplicaModel<SM>,
)
    requires
        executes(s, t),
        executes(t, u),
        works(s, t),
        works(t, u),
        t.serving is Some ==> u.serving is Some,
        t.log_start <= u.log_start,
        forall|op_number: int|
            u.log_start < op_number && op_number <= t.commit_number && op_number <= t.op_number()
                ==> op_number <= u.op_number() && #[trigger] u.entry(op_number) == t.entry(
                op_number,
            ),
    ensures
        works(s, u),
{
    reveal(executes);
    reveal(works);
    if s.can_run() && u.log_start <= s.applied && s.serving is None && u.serving is None {
        runs_add(s, t, u);
        made_from_add(s.config, s.made(), s.applied as int, run_of(s, t), run_of(t, u));
    }
}

/// Executing an entry.
pub proof fn executes_next<SM: StateMachine>(s: ReplicaModel<SM>)
    requires
        s.applied < s.commit_number,
        s.applied < s.op_number(),
        s.op_number() < usize::MAX,
    ensures
        executes(s, s.execute_next()),
        works(s, s.execute_next()),
{
    reveal(executes);
    reveal(works);
    if s.can_run() {
        let t = s.execute_next();
        execute_marks(s);
        execute_tracks(s);
        let entry = s.entry(s.applied + 1);
        let run = run_of(s, t);
        assert(run =~= seq![entry]);
        assert(run.drop_last() =~= Seq::empty());
        assert(run.take(0) =~= Seq::empty());
        reveal_with_fuel(sessions_from, 2);
        reveal_with_fuel(made_from, 2);
        assert(run[0] == entry);
    }
}

impl<SM: StateMachine> ReplicaModel<SM> {
    /// Whether the replica has executed the first entries of `log`: its
    /// sessions are theirs.
    pub open spec fn has_executed(self, log: Seq<LogEntry<SM::Input>>) -> bool {
        &&& self.applied <= log.len()
        &&& self.records.dom().finite()
        &&& marks(self.records) == sessions_after(
            self.config.clients_max as nat,
            log.take(self.applied as int),
        )
    }

    /// Whether the replica has executed the first entries of `log`, and
    /// misses no pending entry but ones that it takes for those.
    pub open spec fn knows(self, log: Seq<LogEntry<SM::Input>>) -> bool {
        let past = log.take(self.applied as int);
        &&& self.has_executed(log)
        &&& self.pending_ok()
        &&& forall|client_id: ClientID| #[trigger]
            self.misses(client_id) ==> ran(past, 0, client_id, self.tail_pending()[client_id])
    }
}

/// A primary that knows a lawful log, and takes a request for the next of its
/// session, leaves the log lawful.
pub proof fn knows_what_to_append<SM: StateMachine>(
    s: ReplicaModel<SM>,
    log: Seq<LogEntry<SM::Input>>,
    entry: LogEntry<SM::Input>,
)
    requires
        s.knows(log),
        lawful(s.config.clients_max as nat, log),
        log.len() + 1 < usize::MAX,
        log.skip(s.applied as int) == s.tail(),
        entry matches LogEntry::Request { client_id, session, request_number, .. } ==> {
            &&& s.records.contains_key(client_id)
            &&& s.records[client_id].session == session
            &&& s.records[client_id].request_number < request_number
            &&& s.pending.contains_key(client_id) ==> s.pending[client_id].0 <= session
            &&& request_number == s.latest_request(client_id, session) + 1
        },
    ensures
        lawful(s.config.clients_max as nat, log.push(entry)),
{
    let max = s.config.clients_max as nat;
    let a = s.applied as int;
    if let LogEntry::Request { client_id, session, request_number, .. } = entry {
        assert(log.subrange(a, log.len() as int) =~= log.skip(a));
        let l = pending_is_last(log, a, log.len() as int, client_id);
        if s.misses(client_id) {
            let past = log.take(a);
            let key = s.tail_pending()[client_id];
            assert(ran(past, 0, client_id, key));
            let d = choose|d: int|
                0 <= d < past.len() && (#[trigger] past[d]).client() == client_id && past[d].key(
                    (0 + d + 1) as OpNumber,
                ) == key;
            assert(past[d] == log[d]);
            keys_differ(max, log, d, l);
        }
        assert(!s.misses(client_id));
        assert(marks(s.records).contains_key(client_id));
        assert(may_append(max, log, s.applied as nat, entry));
    } else {
        assert(may_append(max, log, s.applied as nat, entry));
    }
    lawful_appends(max, log, s.applied as nat, entry);
}

/// A replica that executes more of a log has executed more of it, and what it
/// asks of the order of its requests is so if the log is lawful.
pub proof fn knows_on<SM: StateMachine>(
    s: ReplicaModel<SM>,
    t: ReplicaModel<SM>,
    log: Seq<LogEntry<SM::Input>>,
)
    requires
        executes(s, t),
        s.can_run(),
        t.log_start <= s.applied,
        s.has_executed(log),
        t.applied <= log.len(),
        run_of(s, t) == log.subrange(s.applied as int, t.applied as int),
    ensures
        t.has_executed(log),
        s.knows(log) ==> t.knows(log),
        s.ok && t.fits && (t.applied > s.applied ==> lawful(s.config.clients_max as nat, log))
            ==> t.ok,
{
    reveal(executes);
    let max = s.config.clients_max as nat;
    let (a, b) = (s.applied as int, t.applied as int);
    let (past, run, all) = (log.take(a), run_of(s, t), log.take(b));
    assert(past + run =~= all);
    sessions_from_add(max, Map::empty(), 0, past, run);
    if b > a && lawful(max, log) {
        lawful_takes(max, log, b);
        lawful_is_in_order(max, all);
        in_order_add(max, Map::empty(), 0, past, run);
    }
    if s.knows(log) {
        assert forall|client_id: ClientID| #[trigger] t.misses(client_id) implies ran(
            all,
            0,
            client_id,
            t.tail_pending()[client_id],
        ) by {
            let key = t.tail_pending()[client_id];
            if ran(run, a, client_id, key) {
                let d = choose|d: int|
                    0 <= d < run.len() && (#[trigger] run[d]).client() == client_id && run[d].key(
                        (a + d + 1) as OpNumber,
                    ) == key;
                assert(all[a + d] == run[d]);
            } else {
                assert(s.misses(client_id));
                assert(ran(past, 0, client_id, key));
                let d = choose|d: int|
                    0 <= d < past.len() && (#[trigger] past[d]).client() == client_id
                        && past[d].key((0 + d + 1) as OpNumber) == key;
                assert(all[d] == past[d]);
            }
        }
    }
}

/// Executing entries that are committed.
pub proof fn entries_execute<SM: StateMachine>(s: ReplicaModel<SM>, count: nat)
    requires
        s.can_run(),
        s.applied + count <= s.commit_number,
        s.applied + count <= s.op_number(),
    ensures
        executes(s, s.execute_entries(count)),
        s.execute_entries(count).applied == s.applied + count,
        s.execute_entries(count).log == s.log,
        s.execute_entries(count).log_start == s.log_start,
    decreases count,
{
    broadcast use {group_executes, frame_execute_entries};

    if count > 0 {
        entries_execute(s, (count - 1) as nat);
        let before = s.execute_entries((count - 1) as nat);
        executes_next(before);
        executes_trans(s, before, s.execute_entries(count));
    }
}

pub broadcast group group_executes {
    executes_nothing,
    works_nothing,
    executes_append,
    executes_merge,
    restores_anew,
}

} // verus!
