use vstd::prelude::*;
use super::model::ReplicaModel;
use crate::ids::{CommitID, OpNumber};
use crate::state_machine::StateMachine;

verus! {

/// Whether a step from `s` to `t` only commits, executes and replies.
pub open spec fn only_executes<SM: StateMachine>(s: ReplicaModel<SM>, t: ReplicaModel<SM>) -> bool {
    t == (ReplicaModel {
        ok: t.ok,
        fits: t.fits,
        room: t.room,
        machine: t.machine,
        commit_number: t.commit_number,
        applied: t.applied,
        reply_ranges: t.reply_ranges,
        queries: t.queries,
        records: t.records,
        pending: t.pending,
        replies: t.replies,
        ..s
    })
}

proof fn frame_execute_next<SM: StateMachine>(s: ReplicaModel<SM>)
    ensures
        only_executes(s, s.execute_next()),
        s.execute_next().commit_number == s.commit_number,
        s.execute_next().queries == s.queries,
        s.execute_next().reply_ranges == s.reply_ranges,
{
    let op_number = (s.applied + 1) as OpNumber;
    let t = s.execute(op_number).0;
    assert(only_executes(s, t) && t.commit_number == s.commit_number && t.queries == s.queries
        && t.reply_ranges == s.reply_ranges);
}

#[verifier::rlimit(40)]
pub broadcast proof fn frame_execute_entries<SM: StateMachine>(s: ReplicaModel<SM>, count: nat)
    ensures
        only_executes(s, #[trigger] s.execute_entries(count)),
        s.execute_entries(count).commit_number == s.commit_number,
        s.execute_entries(count).queries == s.queries,
        s.execute_entries(count).reply_ranges == s.reply_ranges,
    decreases count,
{
    if count > 0 {
        frame_execute_entries(s, (count - 1) as nat);
        frame_execute_next(s.execute_entries((count - 1) as nat));
    }
}

pub broadcast proof fn frame_answer_queries<SM: StateMachine>(s: ReplicaModel<SM>)
    ensures
        (#[trigger] s.answer_queries()) == (ReplicaModel {
            queries: s.answer_queries().queries,
            replies: s.answer_queries().replies,
            ..s
        }),
    decreases s.queries.len(),
{
    if s.query_ready() {
        frame_answer_queries(s.answer_query());
    }
}

pub broadcast proof fn frame_apply_committed<SM: StateMachine>(s: ReplicaModel<SM>, op_number: int)
    ensures
        only_executes(s, #[trigger] s.apply_committed(op_number)),
        s.apply_committed(op_number).commit_number == s.commit_number,
{
    broadcast use {frame_execute_entries, frame_answer_queries};

    reveal(ReplicaModel::apply_committed);
}

pub broadcast proof fn frame_commit_up_to<SM: StateMachine>(
    s: ReplicaModel<SM>,
    commit_number: CommitID,
    reply: bool,
)
    ensures
        only_executes(s, #[trigger] s.commit_up_to(commit_number, reply)),
{
    broadcast use frame_apply_committed;

}

} // verus!
