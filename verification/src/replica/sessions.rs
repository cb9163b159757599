//! The sessions that a log opens, and the requests that it runs in them.

use vstd::prelude::*;
use super::execution_laws::a_session_is_oldest;
use super::model::pending_of;
use crate::client_table::{oldest_session, pair_le};
use crate::ids::{ClientID, OpNumber, RequestNumber};
use crate::log::LogEntry;
use crate::state_machine::RecordView;

verus! {

/// A client table without its replies.
pub open spec fn marks<Output>(records: Map<ClientID, RecordView<Output>>) -> Map<
    ClientID,
    RecordView<()>,
> {
    Map::new(
        |client_id: ClientID| records.contains_key(client_id),
        |client_id: ClientID|
            RecordView {
                client_id: records[client_id].client_id,
                session: records[client_id].session,
                request_number: records[client_id].request_number,
                replies: Seq::empty(),
                op_number: records[client_id].op_number,
            },
    )
}

/// The sessions once `entry` has executed as op `op_number`.
pub open spec fn next_sessions<Op>(
    clients_max: nat,
    sessions: Map<ClientID, RecordView<()>>,
    op_number: OpNumber,
    entry: LogEntry<Op>,
) -> Map<ClientID, RecordView<()>> {
    match entry {
        LogEntry::Register { client_id } => if sessions.contains_key(client_id) {
            sessions
        } else {
            let room = if sessions.dom().len() >= clients_max {
                sessions.remove(oldest_session(sessions))
            } else {
                sessions
            };
            room.insert(
                client_id,
                RecordView {
                    client_id,
                    session: op_number,
                    request_number: 0,
                    replies: Seq::empty(),
                    op_number,
                },
            )
        },
        LogEntry::Request { client_id, session, request_number, .. } => if sessions.contains_key(
            client_id,
        ) && sessions[client_id].session == session {
            sessions.insert(
                client_id,
                RecordView { request_number, op_number, ..sessions[client_id] },
            )
        } else {
            sessions
        },
    }
}

/// The sessions once `entries`, the ops after `start`, have executed.
pub open spec fn sessions_from<Op>(
    clients_max: nat,
    sessions: Map<ClientID, RecordView<()>>,
    start: int,
    entries: Seq<LogEntry<Op>>,
) -> Map<ClientID, RecordView<()>>
    decreases entries.len(),
{
    if entries.len() == 0 {
        sessions
    } else {
        next_sessions(
            clients_max,
            sessions_from(clients_max, sessions, start, entries.drop_last()),
            (start + entries.len()) as OpNumber,
            entries.last(),
        )
    }
}

/// The sessions that `log` comes to.
pub open spec fn sessions_after<Op>(clients_max: nat, log: Seq<LogEntry<Op>>) -> Map<
    ClientID,
    RecordView<()>,
> {
    sessions_from(clients_max, Map::empty(), 0, log)
}

/// Whether `entry`, if it is a request of a session that there is, is the
/// session's next.
pub open spec fn is_next<Op>(sessions: Map<ClientID, RecordView<()>>, entry: LogEntry<Op>) -> bool {
    entry matches LogEntry::Request { client_id, session, request_number, .. } ==> (
    sessions.contains_key(client_id) && sessions[client_id].session == session
        ==> sessions[client_id].request_number + 1 == request_number)
}

/// Whether every request of `entries`, the ops after `start`, is its
/// session's next when it executes.
pub open spec fn in_order<Op>(
    clients_max: nat,
    sessions: Map<ClientID, RecordView<()>>,
    start: int,
    entries: Seq<LogEntry<Op>>,
) -> bool {
    forall|i: int|
        0 <= i < entries.len() ==> is_next(
            sessions_from(clients_max, sessions, start, entries.take(i)),
            #[trigger] entries[i],
        )
}

/// The latest request of `session` of `client_id` that a primary knows of
/// that has executed ops up to `sessions`, with `pending` in its log.
pub open spec fn latest_of(
    sessions: Map<ClientID, RecordView<()>>,
    pending: Map<ClientID, (OpNumber, RequestNumber)>,
    client_id: ClientID,
    session: OpNumber,
) -> RequestNumber {
    if pending.contains_key(client_id) && pending[client_id].0 == session {
        pending[client_id].1
    } else {
        sessions[client_id].request_number
    }
}

/// Whether a primary that had executed the first `applied` ops of `log` could
/// append `entry` to it.
pub open spec fn may_append<Op>(
    clients_max: nat,
    log: Seq<LogEntry<Op>>,
    applied: nat,
    entry: LogEntry<Op>,
) -> bool {
    entry matches LogEntry::Request { client_id, session, request_number, .. } ==> {
        let sessions = sessions_after(clients_max, log.take(applied as int));
        let pending = pending_of(log.skip(applied as int), applied as int);
        &&& applied <= log.len()
        &&& sessions.contains_key(client_id)
        &&& sessions[client_id].session == session
        &&& sessions[client_id].request_number < request_number
        &&& pending.contains_key(client_id) ==> pending[client_id].0 <= session
        &&& request_number == latest_of(sessions, pending, client_id, session) + 1
    }
}

/// Whether a primary could append every entry of `log` as it did.
#[verifier::opaque]
pub open spec fn lawful<Op>(clients_max: nat, log: Seq<LogEntry<Op>>) -> bool {
    &&& log.len() < usize::MAX
    &&& forall|b: int| 0 <= b < log.len() ==> #[trigger] was_appended(clients_max, log, b)
}

/// Whether a primary could append entry `b` of `log` as it did.
pub open spec fn was_appended<Op>(clients_max: nat, log: Seq<LogEntry<Op>>, b: int) -> bool {
    exists|applied: nat| #[trigger] may_append(clients_max, log.take(b), applied, log[b])
}

pub proof fn marks_keep_clients<Output>(records: Map<ClientID, RecordView<Output>>)
    ensures
        marks(records).dom() == records.dom(),
{
    assert(marks(records).dom() =~= records.dom());
}

/// The oldest session does not depend on the replies.
pub proof fn marks_keep_the_oldest<Output>(records: Map<ClientID, RecordView<Output>>)
    requires
        records.dom().finite(),
        records.dom().len() > 0,
    ensures
        oldest_session(marks(records)) == oldest_session(records),
        records.contains_key(oldest_session(records)),
{
    marks_keep_clients(records);
    a_session_is_oldest(records);
    a_session_is_oldest(marks(records));
    let (a, b) = (oldest_session(records), oldest_session(marks(records)));
    assert(records.contains_key(a) && marks(records).contains_key(b));
    assert(marks(records).contains_key(a) && records.contains_key(b));
    assert(pair_le((records[a].op_number, a), (records[b].op_number, b)));
    assert(pair_le(
        (marks(records)[b].op_number, b),
        (marks(records)[a].op_number, a),
    ));
}

/// Entries that execute one after another.
pub proof fn sessions_from_add<Op>(
    clients_max: nat,
    sessions: Map<ClientID, RecordView<()>>,
    start: int,
    a: Seq<LogEntry<Op>>,
    b: Seq<LogEntry<Op>>,
)
    ensures
        sessions_from(clients_max, sessions, start, a + b) == sessions_from(
            clients_max,
            sessions_from(clients_max, sessions, start, a),
            start + a.len(),
            b,
        ),
    decreases b.len(),
{
    if b.len() == 0 {
        assert(a + b =~= a);
    } else {
        assert((a + b).drop_last() =~= a + b.drop_last());
        sessions_from_add(clients_max, sessions, start, a, b.drop_last());
        assert(start + (a + b).len() == start + a.len() + b.len());
    }
}

/// Requests in order are in order one after another.
pub proof fn in_order_add<Op>(
    clients_max: nat,
    sessions: Map<ClientID, RecordView<()>>,
    start: int,
    a: Seq<LogEntry<Op>>,
    b: Seq<LogEntry<Op>>,
)
    ensures
        in_order(clients_max, sessions, start, a + b) <==> in_order(
            clients_max,
            sessions,
            start,
            a,
        ) && in_order(
            clients_max,
            sessions_from(clients_max, sessions, start, a),
            start + a.len(),
            b,
        ),
{
    let all = a + b;
    let next = sessions_from(clients_max, sessions, start, a);
    assert forall|i: int| 0 <= i < a.len() implies #[trigger] all[i] == a[i] && all.take(i)
        == a.take(i) by {
        assert(all.take(i) =~= a.take(i));
    }
    assert forall|i: int| 0 <= i < b.len() implies #[trigger] b[i] == all[a.len() + i]
        && sessions_from(clients_max, sessions, start, all.take(a.len() + i)) == sessions_from(
        clients_max,
        next,
        start + a.len(),
        b.take(i),
    ) by {
        assert(all.take(a.len() + i) =~= a + b.take(i));
        sessions_from_add(clients_max, sessions, start, a, b.take(i));
    }
    if in_order(clients_max, sessions, start, a) && in_order(
        clients_max,
        next,
        start + a.len(),
        b,
    ) {
        assert forall|i: int| 0 <= i < all.len() implies is_next(
            sessions_from(clients_max, sessions, start, all.take(i)),
            #[trigger] all[i],
        ) by {
            if i < a.len() {
                assert(is_next(
                    sessions_from(clients_max, sessions, start, a.take(i)),
                    a[i],
                ));
            } else {
                let j = i - a.len();
                assert(b[j] == all[a.len() + j]);
            }
        }
    }
    if in_order(clients_max, sessions, start, all) {
        assert forall|i: int| 0 <= i < a.len() implies is_next(
            sessions_from(clients_max, sessions, start, a.take(i)),
            #[trigger] a[i],
        ) by {
            assert(all[i] == a[i]);
        }
        assert forall|i: int| 0 <= i < b.len() implies is_next(
            sessions_from(clients_max, next, start + a.len(), b.take(i)),
            #[trigger] b[i],
        ) by {
            assert(b[i] == all[a.len() + i]);
        }
    }
}

/// What holds of every session that a log opens: it is numbered with an op
/// of the log, and is of its client.
proof fn sessions_have_opened<Op>(clients_max: nat, log: Seq<LogEntry<Op>>)
    requires
        log.len() < usize::MAX,
    ensures
        forall|client_id: ClientID| #[trigger]
            sessions_after(clients_max, log).contains_key(client_id) ==> 1 <= sessions_after(
                clients_max,
                log,
            )[client_id].session <= log.len(),
    decreases log.len(),
{
    if log.len() > 0 {
        sessions_have_opened(clients_max, log.drop_last());
        let before = sessions_after(clients_max, log.drop_last());
        let now = sessions_after(clients_max, log);
        assert forall|client_id: ClientID| #[trigger] now.contains_key(client_id) implies 1
            <= now[client_id].session <= log.len() by {
            if before.contains_key(client_id) {
                assert(1 <= before[client_id].session <= log.len() - 1);
            }
        }
    }
}

/// A session that there is later was there before, or has opened since.
proof fn sessions_stay<Op>(
    clients_max: nat,
    log: Seq<LogEntry<Op>>,
    a: int,
    b: int,
    client_id: ClientID,
)
    requires
        0 <= a <= b <= log.len() < usize::MAX,
        sessions_after(clients_max, log.take(b)).contains_key(client_id),
    ensures
        ({
            let (x, y) = (
                sessions_after(clients_max, log.take(a)),
                sessions_after(clients_max, log.take(b)),
            );
            y[client_id].session > a || x.contains_key(client_id) && x[client_id].session
                == y[client_id].session
        }),
    decreases b - a,
{
    if a < b {
        assert(log.take(b).drop_last() =~= log.take(b - 1));
        let before = sessions_after(clients_max, log.take(b - 1));
        if before.contains_key(client_id) {
            sessions_stay(clients_max, log, a, b - 1, client_id);
        }
    }
}

/// Whether entry `d` of `log` is a request of `session` of `client_id`.
spec fn is_request<Op>(
    log: Seq<LogEntry<Op>>,
    d: int,
    client_id: ClientID,
    session: OpNumber,
) -> bool {
    log[d] matches LogEntry::Request { client_id: of, session: in_session, .. } && of == client_id
        && in_session == session
}

/// The last entry of `client_id` among the entries of `log` from `a` to `b`,
/// if there is one, is what is pending.
pub proof fn pending_is_last<Op>(log: Seq<LogEntry<Op>>, a: int, b: int, client_id: ClientID) -> (l:
    int)
    requires
        0 <= a <= b <= log.len(),
    ensures
        ({
            let pending = pending_of(log.subrange(a, b), a);
            &&& pending.contains_key(client_id) <==> a <= l
            &&& pending.contains_key(client_id) ==> {
                &&& l < b
                &&& log[l].client() == client_id
                &&& pending[client_id] == log[l].key((l + 1) as OpNumber)
            }
            &&& forall|d: int| a <= d < b && d > l ==> (#[trigger] log[d]).client() != client_id
        }),
    decreases b - a,
{
    if a == b {
        a - 1
    } else {
        let part = log.subrange(a, b);
        assert(part.drop_last() =~= log.subrange(a, b - 1));
        assert(part.last() == log[b - 1]);
        let l = pending_is_last(log, a, b - 1, client_id);
        if log[b - 1].client() == client_id {
            b - 1
        } else {
            l
        }
    }
}

/// How a primary could append entry `b` of a lawful log.
proof fn appended<Op>(clients_max: nat, log: Seq<LogEntry<Op>>, b: int) -> (applied: nat)
    requires
        lawful(clients_max, log),
        0 <= b < log.len(),
    ensures
        may_append(clients_max, log.take(b), applied, log[b]),
        log[b] is Request ==> {
            &&& applied <= b
            &&& log.take(b).take(applied as int) == log.take(applied as int)
            &&& log.take(b).skip(applied as int) == log.subrange(applied as int, b)
        },
{
    reveal(lawful);
    assert(was_appended(clients_max, log, b));
    let applied = choose|applied: nat| #[trigger]
        may_append(clients_max, log.take(b), applied, log[b]);
    if log[b] is Request {
        assert(log.take(b).take(applied as int) =~= log.take(applied as int));
        assert(log.take(b).skip(applied as int) =~= log.subrange(applied as int, b));
    }
    applied
}

/// No request of an older session follows one of a session that there is.
proof fn no_older_session_follows<Op>(
    clients_max: nat,
    log: Seq<LogEntry<Op>>,
    a: int,
    client_id: ClientID,
    session: OpNumber,
    d: int,
    l: int,
)
    requires
        lawful(clients_max, log),
        0 <= a <= d < l < log.len(),
        sessions_after(clients_max, log.take(a)).contains_key(client_id),
        sessions_after(clients_max, log.take(a))[client_id].session == session,
        is_request(log, d, client_id, session),
        log[l].client() == client_id,
    ensures
        log[l].key((l + 1) as OpNumber).0 >= session,
    decreases l,
{
    reveal(lawful);
    assert(log.take(a).len() == a);
    sessions_have_opened(clients_max, log.take(a));
    if let LogEntry::Request { session: older, .. } = log[l] {
        if older < session {
            let applied = appended(clients_max, log, l);
            let before = sessions_after(clients_max, log.take(applied as int));
            if applied > d {
                sessions_stay(clients_max, log, a, applied as int, client_id);
            } else {
                let last = pending_is_last(log, applied as int, l, client_id);
                assert(log[d].client() == client_id);
                assert(last >= d);
                if last > d {
                    no_older_session_follows(clients_max, log, a, client_id, session, d, last);
                }
            }
        }
    }
}

/// The number of a session's latest request.
proof fn number_is_latest<Op>(
    clients_max: nat,
    log: Seq<LogEntry<Op>>,
    a: int,
    b: int,
    client_id: ClientID,
    session: OpNumber,
) -> (last: int)
    requires
        0 <= a <= b <= log.len() < usize::MAX,
        session <= a,
        sessions_after(clients_max, log.take(a)).contains_key(client_id),
        sessions_after(clients_max, log.take(a))[client_id].session == session,
        sessions_after(clients_max, log.take(b)).contains_key(client_id),
        sessions_after(clients_max, log.take(b))[client_id].session == session,
    ensures
        last < b,
        forall|d: int| a <= d < b && d > last ==> !#[trigger] is_request(log, d, client_id, session),
        if last >= a {
            is_request(log, last, client_id, session) && sessions_after(
                clients_max,
                log.take(b),
            )[client_id].request_number == log[last]->request_number
        } else {
            sessions_after(clients_max, log.take(b))[client_id].request_number == sessions_after(
                clients_max,
                log.take(a),
            )[client_id].request_number
        },
    decreases b - a,
{
    if a == b {
        a - 1
    } else {
        assert(log.take(b).drop_last() =~= log.take(b - 1));
        assert(log.take(b).last() == log[b - 1]);
        let before = sessions_after(clients_max, log.take(b - 1));
        assert(before.contains_key(client_id) && before[client_id].session == session);
        let last = number_is_latest(clients_max, log, a, b - 1, client_id, session);
        if is_request(log, b - 1, client_id, session) {
            b - 1
        } else {
            last
        }
    }
}

/// Every request of a lawful log is its session's next when it executes.
pub proof fn lawful_is_in_order<Op>(clients_max: nat, log: Seq<LogEntry<Op>>)
    requires
        lawful(clients_max, log),
    ensures
        in_order(clients_max, Map::empty(), 0, log),
{
    reveal(lawful);
    assert forall|b: int| 0 <= b < log.len() implies is_next(
        sessions_from(clients_max, Map::empty(), 0, log.take(b)),
        #[trigger] log[b],
    ) by {
        if let LogEntry::Request { client_id, session, request_number, .. } = log[b] {
            let now = sessions_after(clients_max, log.take(b));
            if now.contains_key(client_id) && now[client_id].session == session {
                let applied = appended(clients_max, log, b);
                let a = applied as int;
                sessions_have_opened(clients_max, log.take(a));
                let then = sessions_after(clients_max, log.take(a));
                assert(then.contains_key(client_id));
                let last = number_is_latest(clients_max, log, a, b, client_id, session);
                let l = pending_is_last(log, a, b, client_id);
                if last >= a {
                    assert(log[last].client() == client_id);
                    assert(l >= last);
                    if l > last {
                        no_older_session_follows(
                            clients_max,
                            log,
                            a,
                            client_id,
                            session,
                            last,
                            l,
                        );
                        assert(!is_request(log, l, client_id, session));
                    }
                } else if l >= a {
                    assert(!is_request(log, l, client_id, session));
                }
            }
        }
    }
}

/// The numbers of a session's requests go up.
proof fn numbers_go_up<Op>(
    clients_max: nat,
    log: Seq<LogEntry<Op>>,
    d: int,
    l: int,
    client_id: ClientID,
    session: OpNumber,
)
    requires
        lawful(clients_max, log),
        0 <= d < l < log.len(),
        is_request(log, d, client_id, session),
        is_request(log, l, client_id, session),
    ensures
        log[d]->request_number < log[l]->request_number,
    decreases l,
{
    reveal(lawful);
    let applied = appended(clients_max, log, l);
    let a = applied as int;
    let then = sessions_after(clients_max, log.take(a));
    sessions_have_opened(clients_max, log.take(a));
    if d < a {
        // The request has executed in its session.
        let first = appended(clients_max, log, d);
        sessions_have_opened(clients_max, log.take(first as int));
        sessions_stay(clients_max, log, d, a, client_id);
        assert(sessions_after(clients_max, log.take(d)).contains_key(client_id));
        let last = number_is_latest(clients_max, log, d, a, client_id, session);
        assert(last >= d);
        if last > d {
            numbers_go_up(clients_max, log, d, last, client_id, session);
        }
    } else {
        let last = pending_is_last(log, a, l, client_id);
        assert(log[d].client() == client_id);
        assert(last >= d);
        if last > d {
            no_older_session_follows(clients_max, log, a, client_id, session, d, last);
            assert(log[last].key((last + 1) as OpNumber).0 == session);
            assert(is_request(log, last, client_id, session));
            numbers_go_up(clients_max, log, d, last, client_id, session);
        }
    }
}

/// No two entries of a client have the same key.
pub proof fn keys_differ<Op>(clients_max: nat, log: Seq<LogEntry<Op>>, d: int, l: int)
    requires
        lawful(clients_max, log),
        0 <= d < l < log.len(),
        log[d].client() == log[l].client(),
    ensures
        log[d].key((d + 1) as OpNumber) != log[l].key((l + 1) as OpNumber),
{
    reveal(lawful);
    let a = appended(clients_max, log, d);
    let b = appended(clients_max, log, l);
    if log[d] is Request && log[l] is Request && log[d]->session == log[l]->session {
        numbers_go_up(clients_max, log, d, l, log[d].client(), log[d]->session);
    }
}

/// A part of a lawful log is one.
pub proof fn lawful_takes<Op>(clients_max: nat, log: Seq<LogEntry<Op>>, n: int)
    requires
        lawful(clients_max, log),
        0 <= n <= log.len(),
    ensures
        lawful(clients_max, log.take(n)),
{
    reveal(lawful);
    let part = log.take(n);
    assert forall|b: int| 0 <= b < part.len() implies #[trigger] was_appended(
        clients_max,
        part,
        b,
    ) by {
        let applied = appended(clients_max, log, b);
        assert(part.take(b) =~= log.take(b));
        assert(may_append(clients_max, part.take(b), applied, part[b]));
    }
}

/// What a primary may append leaves its log lawful.
pub proof fn lawful_appends<Op>(
    clients_max: nat,
    log: Seq<LogEntry<Op>>,
    applied: nat,
    entry: LogEntry<Op>,
)
    requires
        lawful(clients_max, log),
        log.len() + 1 < usize::MAX,
        may_append(clients_max, log, applied, entry),
    ensures
        lawful(clients_max, log.push(entry)),
{
    reveal(lawful);
    let longer = log.push(entry);
    assert forall|b: int| 0 <= b < longer.len() implies #[trigger] was_appended(
        clients_max,
        longer,
        b,
    ) by {
        if b < log.len() {
            let applied = appended(clients_max, log, b);
            assert(longer.take(b) =~= log.take(b));
            assert(may_append(clients_max, longer.take(b), applied, longer[b]));
        } else {
            assert(longer.take(b) =~= log);
            assert(may_append(clients_max, longer.take(b), applied, longer[b]));
        }
    }
}

} // verus!
