//! What the primary of a view does with what it is told: an op that a majority
//! holds commits, a round that a majority confirms is over, and what is
//! committed and durable executes.

use vstd::prelude::*;
use super::frames::{frame_answer_queries, frame_apply_committed, frame_execute_entries};
use super::marks::lemma_quorum_mark_is_mark;
use super::model::{add_range, is_reached, min, op_marks, quorum_mark, round_marks, ReplicaModel};
use crate::cluster::quorums::{reaching, reaching_counts};
use crate::config::ConfigView;
use crate::ids::{CommitID, OpNumber, ReplicaID};
use crate::message::MessageView;
use crate::state_machine::StateMachine;

verus! {

/// Whether `holders` are a majority of the replicas, and the mark of each is
/// at least `mark`.
pub open spec fn majority_reaches(
    config: ConfigView,
    marks: Seq<int>,
    mark: int,
    holders: Set<ReplicaID>,
) -> bool {
    &&& holders.finite()
    &&& 2 * holders.len() > config.size()
    &&& forall|q: ReplicaID| #[trigger]
        holders.contains(q) ==> q < marks.len() && marks[q as int] >= mark
}

/// The lowest of the marks of `holders`.
proof fn lowest_mark(marks: Seq<int>, holders: Set<ReplicaID>) -> (lowest: ReplicaID)
    requires
        holders.finite(),
        holders.len() > 0,
    ensures
        holders.contains(lowest),
        forall|q: ReplicaID| #[trigger]
            holders.contains(q) ==> marks[lowest as int] <= marks[q as int],
    decreases holders.len(),
{
    let q = holders.choose();
    let rest = holders.remove(q);
    if rest.len() == 0 {
        assert forall|p: ReplicaID| #[trigger] holders.contains(p) implies p == q by {
            if p != q {
                assert(rest.contains(p));
                assert(rest =~= Set::empty());
            }
        }
        q
    } else {
        let low = lowest_mark(marks, rest);
        assert(forall|p: ReplicaID| holders.contains(p) ==> p == q || #[trigger] rest.contains(p));
        if marks[q as int] <= marks[low as int] {
            q
        } else {
            low
        }
    }
}

/// The mark that a quorum reaches is no lower than one that a majority does:
/// no more than a bare majority is waited for.
pub proof fn a_majority_is_enough(
    config: ConfigView,
    marks: Seq<int>,
    mark: int,
    holders: Set<ReplicaID>,
)
    requires
        marks.len() <= usize::MAX,
        majority_reaches(config, marks, mark, holders),
    ensures
        quorum_mark(marks, config.quorum()) >= mark,
{
    let low = lowest_mark(marks, holders);
    let reached = marks[low as int];
    reaching_counts(marks, reached);
    assert(holders.subset_of(reaching(marks, reached)));
    vstd::set_lib::lemma_len_subset(holders, reaching(marks, reached));
    assert(marks.contains(reached));
    assert(is_reached(marks, config.quorum(), reached));
    lemma_quorum_mark_is_mark(marks, config.quorum());
}

/// The mark that a quorum reaches is one that a number can hold.
proof fn mark_fits(marks: Seq<int>, quorum: int, limit: int)
    requires
        0 <= limit,
        forall|i: int| 0 <= i < marks.len() ==> 0 <= #[trigger] marks[i] <= limit,
    ensures
        0 <= quorum_mark(marks, quorum) <= limit,
{
    lemma_quorum_mark_is_mark(marks, quorum);
    let mark = quorum_mark(marks, quorum);
    if mark != 0 {
        let i = choose|i: int| 0 <= i < marks.len() && marks[i] == mark;
        assert(marks[i] == mark);
    }
}

proof fn ack_commits<SM: StateMachine>(
    s: ReplicaModel<SM>,
    replica_id: ReplicaID,
    op_number: OpNumber,
    n: OpNumber,
    holders: Set<ReplicaID>,
)
    requires
        s.inv(),
        replica_id < s.config.size(),
        s.acked[replica_id as int] < min(op_number as int, s.op_number()),
    ensures
        ({
            let t = s.register_ack(replica_id, op_number);
            &&& t.acked == s.acked.update(
                replica_id as int,
                min(op_number as int, s.op_number()) as OpNumber,
            )
            &&& majority_reaches(s.config, op_marks(t.acked), n as int, holders) ==> t.commit_number
                >= n
            &&& t.commit_number >= s.commit_number
        }),
{
    broadcast use frame_apply_committed;

    let mark = min(op_number as int, s.op_number()) as OpNumber;
    let acked = s.acked.update(replica_id as int, mark);
    let marks = op_marks(acked);
    mark_fits(marks, s.config.quorum(), usize::MAX as int);
    if majority_reaches(s.config, marks, n as int, holders) {
        a_majority_is_enough(s.config, marks, n as int, holders);
    }
}

/// An op that a majority holds commits: with an acknowledgement that tells the
/// primary something new, every op is committed that enough replicas have
/// acknowledged, whatever the others do.
pub proof fn an_op_that_a_majority_acknowledges_commits<SM: StateMachine>(
    s: ReplicaModel<SM>,
    replica_id: ReplicaID,
    op_number: OpNumber,
    chunk: (SM::Chunk, bool),
    n: OpNumber,
    holders: Set<ReplicaID>,
)
    requires
        s.inv(),
        s.leads(),
        replica_id < s.config.size(),
        s.acked[replica_id as int] < min(op_number as int, s.op_number()),
    ensures
        ({
            let t = s.on_message(
                MessageView::PrepareOk { view_number: s.view_number, op_number, replica_id },
                chunk,
            );
            &&& t.acked == s.acked.update(
                replica_id as int,
                min(op_number as int, s.op_number()) as OpNumber,
            )
            &&& majority_reaches(s.config, op_marks(t.acked), n as int, holders) ==> t.commit_number
                >= n
        }),
{
    reveal(ReplicaModel::handle);
    reveal(ReplicaModel::on_prepare_ok);
    ack_commits(s, replica_id, op_number, n, holders);
}

/// The primary counts itself among those that hold an op once a write of its
/// view that holds it is handed back.
pub proof fn a_primary_counts_its_own_write<SM: StateMachine>(
    s: ReplicaModel<SM>,
    n: OpNumber,
    holders: Set<ReplicaID>,
)
    requires
        s.inv(),
        s.leads(),
        s.outstanding is Some,
        (s.outstanding->0).last_normal_view == s.view_number,
    ensures
        ({
            let t = s.persisted();
            let held = min(t.durable_op(), s.op_number());
            &&& t.acked[s.self_id as int] >= held
            &&& s.acked[s.self_id as int] < held && majority_reaches(
                s.config,
                op_marks(t.acked),
                n as int,
                holders,
            ) ==> t.commit_number >= n
        }),
{
    broadcast use frame_apply_committed;

    reveal(ReplicaModel::persisted);
    let outstanding = s.outstanding->0;
    let held = ReplicaModel { outstanding: None, durable: outstanding.op_number, ..s };
    assert(held.inv());
    let durable = held.durable_op();
    if s.acked[s.self_id as int] < min(durable, s.op_number()) {
        ack_commits(held, s.self_id, durable as OpNumber, n, holders);
    }
}

/// A round of confirmations is over once a majority has confirmed the view in
/// it, whatever the others do.
pub proof fn a_round_that_a_majority_confirms_is_over<SM: StateMachine>(
    s: ReplicaModel<SM>,
    round: u64,
    replica_id: ReplicaID,
    chunk: (SM::Chunk, bool),
    r: u64,
    holders: Set<ReplicaID>,
)
    requires
        s.inv(),
        s.leads(),
        replica_id < s.config.size(),
        s.confirmed[replica_id as int] < round <= s.round,
        majority_reaches(
            s.config,
            round_marks(s.confirmed.update(replica_id as int, round)),
            r as int,
            holders,
        ),
    ensures
        s.on_message(
            MessageView::ConfirmViewOk { view_number: s.view_number, round, replica_id },
            chunk,
        ).round_confirmed >= r,
        s.round_confirmed < r ==> !s.on_message(
            MessageView::ConfirmViewOk { view_number: s.view_number, round, replica_id },
            chunk,
        ).query_ready(),
{
    broadcast use frame_answer_queries;

    reveal(ReplicaModel::handle);
    let confirmed = s.confirmed.update(replica_id as int, round);
    let marks = round_marks(confirmed);
    mark_fits(marks, s.config.quorum(), u64::MAX as int);
    a_majority_is_enough(s.config, marks, r as int, holders);
    let mark = quorum_mark(marks, s.config.quorum()) as u64;
    if mark > s.round_confirmed {
        let now = ReplicaModel { round_confirmed: mark, confirmed, ..s };
        let next = if s.queries.len() > 0 && s.queries.last().round > s.round {
            now.start_round()
        } else {
            now
        };
        answering(next);
    }
}

/// Answering queries leaves none first that may go.
proof fn answering<SM: StateMachine>(s: ReplicaModel<SM>)
    ensures
        !s.answer_queries().query_ready(),
    decreases s.queries.len(),
{
    if s.query_ready() {
        answering(s.answer_query());
    }
}

proof fn entries_apply<SM: StateMachine>(s: ReplicaModel<SM>, count: nat)
    requires
        s.applied + count <= usize::MAX,
    ensures
        s.execute_entries(count).applied == s.applied + count,
    decreases count,
{
    if count > 0 {
        entries_apply(s, (count - 1) as nat);
    }
}

/// What is committed and durable executes at once, and the queries that it lets
/// go are answered.
pub proof fn what_is_committed_and_durable_executes<SM: StateMachine>(
    s: ReplicaModel<SM>,
    commit_number: CommitID,
    reply: bool,
)
    requires
        commit_number > s.commit_number,
    ensures
        ({
            let t = s.commit_up_to(commit_number, reply);
            &&& t.commit_number == commit_number
            &&& t.applied >= s.applied
            &&& t.applied >= commit_number || t.applied >= s.durable_op()
            &&& s.leads() ==> !t.query_ready()
        }),
{
    broadcast use {frame_execute_entries, frame_answer_queries};

    reveal(ReplicaModel::apply_committed);
    let next = ReplicaModel {
        commit_number,
        reply_ranges: if reply {
            add_range(
                s.reply_ranges,
                (s.commit_number + 1) as OpNumber,
                commit_number,
            )
        } else {
            s.reply_ranges
        },
        ..s
    };
    let count = next.unexecuted(s.durable_op());
    entries_apply(next, count);
    let executed = next.execute_entries(count);
    answering(
        ReplicaModel {
            reply_ranges: executed.reply_ranges.filter(
                |range: (OpNumber, OpNumber)| range.1 > executed.applied,
            ),
            ..executed
        },
    );
}

} // verus!
