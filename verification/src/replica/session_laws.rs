use vstd::prelude::*;
use super::frames::frame_execute_entries;
use super::model::ReplicaModel;
use super::ok::ok_execute_next;
use crate::ids::{ClientID, OpNumber, RequestNumber};
use crate::log::LogEntry;
use crate::message::Reply;
use crate::state_machine::StateMachine;

verus! {

/// Whether the `k`th entry that `s` executes next is request
/// `request_number` of `session`, and the session is in the client table
/// when it executes.
pub open spec fn runs<SM: StateMachine>(
    s: ReplicaModel<SM>,
    k: nat,
    client_id: ClientID,
    session: OpNumber,
    request_number: RequestNumber,
) -> bool {
    let t = s.execute_entries(k);
    &&& s.entry(s.applied + k + 1) matches LogEntry::Request {
        client_id: client,
        session: of,
        request_number: number,
        ..
    } && client == client_id && of == session && number == request_number
    &&& t.records.contains_key(client_id)
    &&& t.records[client_id].session == session
}

/// Whether every session in the client table was opened by an op that has
/// executed.
pub open spec fn sessions_have_opened<SM: StateMachine>(s: ReplicaModel<SM>) -> bool {
    forall|client_id: ClientID| #[trigger]
        s.records.contains_key(client_id) ==> s.records[client_id].session <= s.applied
}

/// Where a replica is after executing entries.
proof fn executes_one_by_one<SM: StateMachine>(s: ReplicaModel<SM>, count: nat)
    requires
        s.applied + count <= usize::MAX,
    ensures
        s.execute_entries(count).applied == s.applied + count,
        forall|op_number: int| #[trigger]
            s.execute_entries(count).entry(op_number) == s.entry(op_number),
    decreases count,
{
    broadcast use frame_execute_entries;

    if count > 0 {
        executes_one_by_one(s, (count - 1) as nat);
    }
}

/// Executing an entry opens no session but the one numbered with it.
proof fn execution_opens_new_sessions<SM: StateMachine>(s: ReplicaModel<SM>)
    requires
        sessions_have_opened(s),
        s.applied < usize::MAX,
    ensures
        sessions_have_opened(s.execute_next()),
        forall|client_id: ClientID| #[trigger]
            s.execute_next().records.contains_key(client_id)
                && s.execute_next().records[client_id].session <= s.applied
                ==> s.records.contains_key(client_id) && s.records[client_id].session
                == s.execute_next().records[client_id].session,
{
}

/// A session that is in the table after entries have executed was there
/// before them, and its requests have only gone forward.
proof fn sessions_go_forward<SM: StateMachine>(
    s: ReplicaModel<SM>,
    from: nat,
    to: nat,
    client_id: ClientID,
)
    requires
        sessions_have_opened(s),
        from <= to,
        s.applied + to <= usize::MAX,
        s.execute_entries(to).ok,
    ensures
        sessions_have_opened(s.execute_entries(to)),
        ({
            let (a, b) = (s.execute_entries(from), s.execute_entries(to));
            b.records.contains_key(client_id) && b.records[client_id].session <= a.applied ==> {
                &&& a.records.contains_key(client_id)
                &&& a.records[client_id].session == b.records[client_id].session
                &&& a.records[client_id].request_number <= b.records[client_id].request_number
            }
        }),
    decreases to,
{
    broadcast use {frame_execute_entries, ok_execute_next};

    if to > 0 {
        let before = s.execute_entries((to - 1) as nat);
        if from < to {
            sessions_go_forward(s, from, (to - 1) as nat, client_id);
        } else {
            sessions_go_forward(s, (to - 1) as nat, (to - 1) as nat, client_id);
        }
        executes_one_by_one(s, (to - 1) as nat);
        executes_one_by_one(s, from);
        executes_one_by_one(s, to);
        execution_opens_new_sessions(before);
        assert(s.execute_entries(to) == before.execute_next());
    }
}

/// A session's requests execute in order, each after the one before it, and
/// none of them twice: a replica that can execute two of them executes the
/// later one in the log as the later one of the session. That it can is
/// [`what_is_committed_executes_in_order`].
///
/// [`what_is_committed_executes_in_order`]: crate::cluster::order::what_is_committed_executes_in_order
pub proof fn a_session_executes_its_requests_in_order<SM: StateMachine>(
    s: ReplicaModel<SM>,
    j: nat,
    k: nat,
    client_id: ClientID,
    session: OpNumber,
    a: RequestNumber,
    b: RequestNumber,
)
    requires
        sessions_have_opened(s),
        j < k,
        s.applied + k + 1 <= usize::MAX,
        s.execute_entries(k + 1).ok,
        runs(s, j, client_id, session, a),
        runs(s, k, client_id, session, b),
    ensures
        a < b,
        s.execute_entries(j).records[client_id].request_number + 1 == a,
        s.execute_entries(k).records[client_id].request_number + 1 == b,
{
    broadcast use {frame_execute_entries, ok_execute_next};

    let (x, y) = (s.execute_entries(j), s.execute_entries(j + 1));
    let (z, w) = (s.execute_entries(k), s.execute_entries(k + 1));
    assert(w == z.execute_next());
    assert(y == x.execute_next());
    earlier_is_ok(s, (j + 1) as nat, (k + 1) as nat);
    earlier_is_ok(s, k, (k + 1) as nat);
    earlier_is_ok(s, j, (k + 1) as nat);
    executes_one_by_one(s, j);
    executes_one_by_one(s, (j + 1) as nat);
    executes_one_by_one(s, k);
    assert(x.entry(x.applied + 1) == s.entry(s.applied + j + 1));
    assert(z.entry(z.applied + 1) == s.entry(s.applied + k + 1));
    sessions_go_forward(s, j, j, client_id);
    sessions_go_forward(s, (j + 1) as nat, k, client_id);
}

/// A replica that can execute entries can execute fewer of them.
proof fn earlier_is_ok<SM: StateMachine>(s: ReplicaModel<SM>, from: nat, to: nat)
    requires
        from <= to,
        s.execute_entries(to).ok,
    ensures
        s.execute_entries(from).ok,
    decreases to,
{
    broadcast use ok_execute_next;

    if from < to {
        earlier_is_ok(s, from, (to - 1) as nat);
    }
}

/// The primary appends only a session's next request: one whose session is
/// in the client table, that follows the latest of the session in the log,
/// and that is at most `in_flight_max` after the latest executed. Whatever
/// else a request does, it leaves the log as it is.
pub proof fn only_the_next_request_is_appended<SM: StateMachine>(
    s: ReplicaModel<SM>,
    client_id: ClientID,
    session: OpNumber,
    request_number: RequestNumber,
    answered: RequestNumber,
    op: SM::Input,
)
    ensures
        ({
            let t = s.on_request(client_id, session, request_number, answered, op);
            let entry = LogEntry::Request { client_id, session, request_number, answered, op };
            t.log != s.log ==> {
                &&& s.leads()
                &&& t.log == s.log.push(entry)
                &&& s.records.contains_key(client_id)
                &&& s.records[client_id].session == session
                &&& request_number == s.latest_request(client_id, session) + 1
                &&& s.records[client_id].request_number < request_number
                    <= s.records[client_id].request_number + s.config.in_flight_max
            }
        }),
{
}

/// The primary appends a session's next request: one that follows the latest
/// of the session in the log, as long as no later session of the client is in
/// the log, and that is at most `in_flight_max` after the latest executed.
pub proof fn the_next_request_is_appended<SM: StateMachine>(
    s: ReplicaModel<SM>,
    client_id: ClientID,
    session: OpNumber,
    request_number: RequestNumber,
    answered: RequestNumber,
    op: SM::Input,
)
    requires
        s.leads(),
        s.records.contains_key(client_id),
        s.records[client_id].session == session,
        s.records[client_id].request_number < request_number,
        request_number <= s.records[client_id].request_number + s.config.in_flight_max,
        match s.pending.contains_key(client_id) {
            true => s.pending[client_id].0 < session && request_number
                == s.records[client_id].request_number + 1 || s.pending[client_id].0 == session
                && request_number == s.pending[client_id].1 + 1,
            false => request_number == s.records[client_id].request_number + 1,
        },
    ensures
        ({
            let t = s.on_request(client_id, session, request_number, answered, op);
            t.log == s.log.push(
                LogEntry::Request { client_id, session, request_number, answered, op },
            )
        }),
{
}

/// The primary appends the registration of a client that has no session, and
/// no registration in the log.
pub proof fn a_registration_is_appended<SM: StateMachine>(
    s: ReplicaModel<SM>,
    client_id: ClientID,
)
    requires
        s.leads(),
        !s.records.contains_key(client_id),
        s.pending.contains_key(client_id) ==> s.pending[client_id].1 != 0,
    ensures
        s.on_register(client_id).log == s.log.push(LogEntry::Register { client_id }),
{
}

/// A request that has executed is answered again, with the result that it had,
/// as long as the result is kept: those of the last requests are, that the
/// client may still ask for.
pub proof fn a_request_that_has_executed_is_answered_again<SM: StateMachine>(
    s: ReplicaModel<SM>,
    client_id: ClientID,
    session: OpNumber,
    request_number: RequestNumber,
    answered: RequestNumber,
    op: SM::Input,
)
    requires
        s.leads(),
        s.records.contains_key(client_id),
        s.records[client_id].session == session,
        request_number <= s.records[client_id].request_number,
        s.records[client_id].request_number - request_number
            < s.records[client_id].replies.len(),
    ensures
        ({
            let t = s.on_request(client_id, session, request_number, answered, op);
            let record = s.records[client_id];
            let replies = record.replies;
            &&& t.replies == s.replies.push(
                Reply::Executed {
                    view_number: s.view_number,
                    client_id,
                    session,
                    request_number,
                    result: replies[replies.len() - 1 - (record.request_number
                        - request_number)],
                },
            )
            &&& t.log == s.log
        }),
{
}

} // verus!
