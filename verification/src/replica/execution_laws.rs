use vstd::prelude::*;
use super::frames::{frame_apply_committed, frame_commit_up_to, frame_execute_entries};
use super::keeps::{advances, keep_apply_committed};
use super::life::{is_life, life_keeps, owner_steps, restart_keeps, step_keeps, Start, Step};
use super::marks::lemma_quorum_mark_is_mark;
use super::model::{max, min, op_marks, quorum_mark, reach, ReplicaModel};
use super::runs::made_next;
use super::parts::{Status, ROUNDS_OUT};
use super::steps::persisted_advances;
use crate::client_table::{is_oldest, oldest_session, pair_le};
use crate::config::ConfigView;
use crate::ids::{ClientID, CommitID, OpNumber, ReplicaID};
use crate::log::LogEntry;
use crate::state_machine::{RecordView, StateMachine};

verus! {

/// A client table that holds a session has one whose latest entry executed
/// earliest.
pub proof fn a_session_is_oldest<Output>(records: Map<ClientID, RecordView<Output>>)
    requires
        records.dom().finite(),
        records.dom().len() > 0,
    ensures
        is_oldest(records, oldest_session(records)),
    decreases records.dom().len(),
{
    let some = records.dom().choose();
    let rest = records.remove(some);
    assert(rest.dom() =~= records.dom().remove(some));
    if rest.dom().len() == 0 {
        assert forall|other: ClientID| #[trigger] records.contains_key(other) implies other
            == some by {
            if other != some {
                assert(rest.dom().contains(other));
            }
        }
        assert(is_oldest(records, some));
    } else {
        a_session_is_oldest(rest);
        let best = oldest_session(rest);
        assert(rest.contains_key(best));
        let oldest = if pair_le(
            (records[best].op_number, best),
            (records[some].op_number, some),
        ) {
            best
        } else {
            some
        };
        assert forall|other: ClientID| #[trigger] records.contains_key(other) implies pair_le(
            (records[oldest].op_number, oldest),
            (records[other].op_number, other),
        ) by {
            if other != some {
                assert(rest.contains_key(other));
                assert(pair_le((rest[best].op_number, best), (rest[other].op_number, other)));
            }
        }
        assert(is_oldest(records, oldest));
    }
}

/// The sessions a registration leaves: it evicts the one whose latest entry
/// executed earliest if the table is full, and opens its own.
pub proof fn registration_evicts_the_oldest_session<SM: StateMachine>(
    s: ReplicaModel<SM>,
    op_number: OpNumber,
    client_id: ClientID,
)
    requires
        s.config.wf(),
        s.records.dom().finite(),
        s.records.dom().len() <= s.config.clients_max,
        !s.records.contains_key(client_id),
    ensures
        ({
            let t = s.register(op_number, client_id).0;
            &&& t.records.contains_key(client_id)
            &&& t.records[client_id].session == op_number
            &&& t.records.dom().finite()
            &&& t.records.dom().len() <= s.config.clients_max
            &&& s.records.dom().len() < s.config.clients_max ==> t.records.dom()
                == s.records.dom().insert(client_id)
            &&& s.records.dom().len() == s.config.clients_max ==> {
                let evicted = oldest_session(s.records);
                &&& is_oldest(s.records, evicted)
                &&& t.records.dom() == s.records.dom().remove(evicted).insert(client_id)
            }
        }),
{
    let t = s.register(op_number, client_id).0;
    if s.records.dom().len() >= s.config.clients_max {
        a_session_is_oldest(s.records);
        let evicted = oldest_session(s.records);
        assert(t.records.dom() =~= s.records.dom().remove(evicted).insert(client_id));
    } else {
        assert(t.records.dom() =~= s.records.dom().insert(client_id));
    }
}

/// Executing entries never lets the client table outgrow its limit.
pub proof fn client_table_keeps_its_limit<SM: StateMachine>(s: ReplicaModel<SM>, count: nat)
    requires
        s.config.wf(),
        s.records.dom().finite(),
        s.records.dom().len() <= s.config.clients_max,
    ensures
        s.execute_entries(count).records.dom().finite(),
        s.execute_entries(count).records.dom().len() <= s.config.clients_max,
    decreases count,
{
    broadcast use frame_execute_entries;

    if count > 0 {
        client_table_keeps_its_limit(s, (count - 1) as nat);
        let before = s.execute_entries((count - 1) as nat);
        let op_number = (before.applied + 1) as OpNumber;
        match before.entry(op_number as int) {
            LogEntry::Register { client_id } => {
                if !before.records.contains_key(client_id) {
                    registration_evicts_the_oldest_session(before, op_number, client_id);
                }
            },
            LogEntry::Request { client_id, .. } => {
                if before.records.contains_key(client_id) {
                    let t = before.execute(op_number).0;
                    assert(before.records.dom().insert(client_id) =~= before.records.dom());
                    assert(t.records.dom() =~= before.records.dom());
                }
            },
        }
    }
}

/// What executing the next entry makes of a replica.
proof fn next_makes<SM: StateMachine>(s: ReplicaModel<SM>)
    requires
        s.applied < usize::MAX,
    ensures
        s.execute_next().machine == made_next(
            s.config,
            s.made(),
            (s.applied + 1) as OpNumber,
            s.entry(s.applied + 1),
        ).machine,
        s.execute_next().records == made_next(
            s.config,
            s.made(),
            (s.applied + 1) as OpNumber,
            s.entry(s.applied + 1),
        ).records,
        s.execute_next().applied == s.applied + 1,
{
}

/// Of the configuration only the limits matter to what an entry makes.
proof fn same_limits_make_the_same<SM: StateMachine>(s: ReplicaModel<SM>, t: ReplicaModel<SM>)
    requires
        s.config.clients_max == t.config.clients_max,
        s.config.in_flight_max == t.config.in_flight_max,
        s.made() == t.made(),
        s.applied == t.applied,
        s.entry(s.applied + 1) == t.entry(t.applied + 1),
    ensures
        made_next(s.config, s.made(), (s.applied + 1) as OpNumber, s.entry(s.applied + 1))
            == made_next(t.config, t.made(), (t.applied + 1) as OpNumber, t.entry(t.applied + 1)),
{
}

/// Two replicas whose state machines and client tables are the same come to
/// the same state machine and client table when they execute the same
/// entries: the log decides it, evictions included.
pub proof fn the_log_decides_what_executes<SM: StateMachine>(
    s: ReplicaModel<SM>,
    t: ReplicaModel<SM>,
    count: nat,
)
    requires
        s.machine == t.machine,
        s.records == t.records,
        s.applied == t.applied,
        s.applied + count <= usize::MAX,
        s.config.clients_max == t.config.clients_max,
        s.config.in_flight_max == t.config.in_flight_max,
        forall|op_number: int|
            s.applied < op_number && op_number <= s.applied + count ==> #[trigger] s.entry(
                op_number,
            ) == t.entry(op_number),
    ensures
        s.execute_entries(count).machine == t.execute_entries(count).machine,
        s.execute_entries(count).records == t.execute_entries(count).records,
        s.execute_entries(count).applied == t.execute_entries(count).applied,
        s.execute_entries(count).applied == s.applied + count,
    decreases count,
{
    broadcast use frame_execute_entries;

    if count > 0 {
        the_log_decides_what_executes(s, t, (count - 1) as nat);
        let a = s.execute_entries((count - 1) as nat);
        let b = t.execute_entries((count - 1) as nat);
        let op_number = s.applied + count;
        assert(s.entry(op_number) == t.entry(op_number));
        assert(a.entry(op_number) == s.entry(op_number));
        assert(b.entry(op_number) == t.entry(op_number));
        next_makes(a);
        next_makes(b);
        assert(a.made() == b.made());
        same_limits_make_the_same(a, b);
    }
}

/// A request of a session that is not in the client table never executes:
/// its client is told that the session is gone, and the state machine only
/// learns the op number.
pub proof fn requests_of_evicted_sessions_never_execute<SM: StateMachine>(
    s: ReplicaModel<SM>,
    op_number: OpNumber,
)
    requires
        s.entry(op_number as int) matches LogEntry::Request { client_id, session, .. } && (
        !s.records.contains_key(client_id) || s.records[client_id].session != session),
    ensures
        s.execute(op_number).1 is Evicted,
        s.execute(op_number).0.records == s.records,
        s.execute(op_number).0.machine == SM::step(
            s.machine,
            crate::state_machine::StateCall::RecordClient {
                op_number,
                client_id: s.entry(op_number as int).client(),
                record: s.record_of(s.entry(op_number as int).client()),
            },
        ),
{
}

/// A committed op executes only once a handed-back write holds it: what
/// executes of the committed ops up to `commit_number` is what is durable.
pub proof fn only_durable_ops_execute<SM: StateMachine>(
    s: ReplicaModel<SM>,
    commit_number: CommitID,
    reply: bool,
)
    requires
        s.inv(),
    ensures
        ({
            let t = s.commit_up_to(commit_number, reply);
            &&& t.commit_number == max(s.commit_number as int, commit_number as int)
            &&& t.applied == max(
                s.applied as int,
                if commit_number > s.commit_number {
                    min(commit_number as int, s.durable_op())
                } else {
                    s.applied as int
                },
            )
        }),
{
    if commit_number > s.commit_number {
        let next = ReplicaModel {
            commit_number,
            reply_ranges: if reply {
                super::model::add_range(
                    s.reply_ranges,
                    (s.commit_number + 1) as OpNumber,
                    commit_number,
                )
            } else {
                s.reply_ranges
            },
            ..s
        };
        assert(next.inv());
        keep_apply_committed(next, s.durable_op());
        super::frames::frame_apply_committed(next, s.durable_op());
    }
}

/// The primary commits an op only once a quorum of replicas, itself
/// included, has acknowledged it: each counts once, however often its
/// acknowledgement arrives.
pub proof fn a_quorum_acknowledges_what_commits<SM: StateMachine>(
    s: ReplicaModel<SM>,
    replica_id: ReplicaID,
    op_number: OpNumber,
)
    requires
        s.inv(),
        replica_id < s.acked.len(),
        s.register_ack(replica_id, op_number).commit_number > s.commit_number,
    ensures
        ({
            let t = s.register_ack(replica_id, op_number);
            &&& t.acked == s.acked.update(
                replica_id as int,
                min(op_number as int, s.op_number()) as OpNumber,
            )
            &&& reach(op_marks(t.acked), t.commit_number as int) >= s.config.quorum()
        }),
{
    broadcast use frame_commit_up_to;

    let mark = min(op_number as int, s.op_number()) as OpNumber;
    let next = ReplicaModel { acked: s.acked.update(replica_id as int, mark), ..s };
    assert(next.inv());
    let quorum = s.config.quorum();
    let committed = quorum_mark(op_marks(next.acked), quorum);
    lemma_quorum_mark_is_mark(op_marks(next.acked), quorum);
    assert(0 <= committed <= usize::MAX) by {
        if committed != 0 {
            let i = choose|i: int|
                0 <= i < next.acked.len() && op_marks(next.acked)[i] == committed;
            assert(op_marks(next.acked)[i] == next.acked[i]);
        }
    }
    only_durable_ops_execute(next, committed as CommitID, true);
}

/// A query is answered only by the primary in normal status, from a state
/// that has applied every op that was committed when the query arrived and
/// every op the view started with, and once a quorum has confirmed a round
/// of the view started after the query arrived.
pub proof fn queries_wait_for_their_round_and_their_op<SM: StateMachine>(
    s: ReplicaModel<SM>,
    client_id: ClientID,
    query_number: crate::ids::QueryNumber,
    query: SM::Query,
)
    requires
        s.leads(),
        !s.waits(client_id, query_number),
    ensures
        ({
            let t = s.on_query(client_id, query_number, query);
            let asked = t.queries.last();
            &&& t.queries == s.queries.push(asked)
            &&& asked.op_number >= s.commit_number && asked.op_number >= s.view_start_op
            &&& !s.round_unsent && s.round < u64::MAX ==> asked.round > s.round
            &&& t.replies == s.replies
        }),
        s.query_ready() <==> s.queries.len() > 0 && s.queries[0].round <= s.round_confirmed
            && s.queries[0].op_number <= s.applied,
        s.queries.len() > 0 && !s.query_ready() ==> s.answer_queries() == s,
{
}

/// A replica in recovering status takes part in nothing: it handles only
/// responses to its recovery, and the chunks of a checkpoint one named.
pub proof fn recovering_replicas_take_no_part<SM: StateMachine>(
    s: ReplicaModel<SM>,
    message: crate::message::MessageViewFor<SM>,
    chunk: (SM::Chunk, bool),
)
    requires
        s.status == Status::Recovering,
        !(message is RecoveryResponse),
        !(message is NewChunk),
    ensures
        s.on_message(message, chunk) == s,
{
}

/// Compacting drops no entry that has not executed, and none after the
/// checkpoint kept.
pub proof fn compaction_drops_only_what_is_applied<SM: StateMachine>(
    s: ReplicaModel<SM>,
    op_number: OpNumber,
)
    requires
        s.inv(),
    ensures
        ({
            let t = s.compact(op_number);
            &&& t.op_number() == s.op_number()
            &&& t.log_start <= s.applied
            &&& s.log_start <= t.log_start && (t.log_start == s.log_start || t.log_start
                <= op_number)
            &&& s.serving matches Some(serving) ==> t.log_start <= serving.0
            &&& forall|op: int|
                t.log_start < op && op <= t.op_number() ==> #[trigger] t.entry(op) == s.entry(op)
        }),
{
}

/// However many queries arrive, only so many rounds of view confirmations
/// are out at a time.
pub proof fn only_so_many_rounds_are_out<SM: StateMachine>(
    id: ReplicaID,
    config: ConfigView,
    start: Start<SM>,
    life: Seq<ReplicaModel<SM>>,
    steps: Seq<Step<SM>>,
    k: nat,
)
    requires
        is_life(id, config, start, life, steps),
        k < life.len(),
    ensures
        life[k as int].round - life[k as int].round_confirmed <= ROUNDS_OUT,
    decreases k,
{
    if k == 0 {
        broadcast use frame_apply_committed;

        match start {
            Start::Restart { machine, applied, state, nonce } => {
                restart_keeps::<SM>(id, config, machine, applied, state, nonce);
                reveal(advances);
            },
            _ => {},
        }
    } else {
        let j = k - 1;
        let s = life[j];
        only_so_many_rounds_are_out(id, config, start, life, steps, j as nat);
        life_keeps(id, config, start, life, steps, j);
        assert(s.can_step(steps[j]));
        if steps[j] is Message || steps[j] is Idle || steps[j] is Compact {
            step_keeps(s, steps[j]);
            reveal(advances);
        } else {
            owner_steps(s, steps[j]);
            if steps[j] is Persisted {
                persisted_advances(s);
            }
        }
    }
}

} // verus!
