//! What comes of the entries that a replica executes.

use vstd::prelude::*;
use super::keeps::goes_on;
use super::life::{idle_step, is_life, life_keeps, message_step, owner_step, Start, Step};
use super::model::{in_ranges, keep_last, max, min, ReplicaModel};
use super::runs::{executes, made_from, made_next, run_of, works};
use crate::config::ConfigView;
use crate::ids::{OpNumber, ReplicaID};
use crate::log::LogEntry;
use crate::message::Reply;
use crate::state_machine::StateMachine;

verus! {

/// The entries that a replica executes on its way from `states[0]` to
/// `states[k]`.
pub open spec fn executed<SM: StateMachine>(states: Seq<ReplicaModel<SM>>, k: nat) -> Seq<
    LogEntry<SM::Input>,
>
    decreases k,
{
    if k == 0 {
        Seq::empty()
    } else {
        executed(states, (k - 1) as nat) + run_of(states[k - 1], states[k as int])
    }
}

/// Whether a step from `s` to `t` runs the log on: the state machine only
/// executes what comes next.
pub open spec fn runs_on<SM: StateMachine>(s: ReplicaModel<SM>, t: ReplicaModel<SM>) -> bool {
    &&& executes(s, t)
    &&& works(s, t)
    &&& t.log_start <= s.applied
}

/// Whether `step` moves a checkpoint: the replica is asked for a chunk of
/// one, or gets one that it waits for.
pub open spec fn moves_checkpoint<SM: StateMachine>(s: ReplicaModel<SM>, step: Step<SM>) -> bool {
    step matches Step::Message { message, .. } && (message is GetChunk || s.awaits(message))
}

/// A step that moves no checkpoint runs the log on.
pub proof fn step_runs_on<SM: StateMachine>(s: ReplicaModel<SM>, step: Step<SM>)
    requires
        s.inv(),
        s.can_step(step),
        s.serving is None,
        !moves_checkpoint(s, step),
    ensures
        runs_on(s, s.stepped(step)),
{
    match step {
        Step::Message { message, chunk } => {
            message_step(s, message, chunk);
            reveal(goes_on);
        },
        Step::Idle => {
            idle_step(s);
            reveal(goes_on);
        },
        _ => owner_step(s, step),
    }
}

/// A replica that does nothing runs the log on.
pub proof fn runs_on_refl<SM: StateMachine>(s: ReplicaModel<SM>)
    requires
        s.inv(),
    ensures
        runs_on(s, s),
{
    broadcast use super::runs::group_executes;

}

/// What a replica that only runs its log on makes of it.
pub proof fn runs_make<SM: StateMachine>(states: Seq<ReplicaModel<SM>>, k: nat)
    requires
        k < states.len(),
        states[0].can_run(),
        forall|n: int| 0 <= n < k ==> runs_on(#[trigger] states[n], states[n + 1]),
        forall|n: int| 0 <= n <= k ==> (#[trigger] states[n]).serving is None,
    ensures
        states[k as int].can_run(),
        states[k as int].config == states[0].config,
        states[k as int].applied == states[0].applied + executed(states, k).len(),
        states[k as int].made() == made_from(
            states[0].config,
            states[0].made(),
            states[0].applied as int,
            executed(states, k),
        ),
    decreases k,
{
    if k > 0 {
        let n = (k - 1) as nat;
        runs_make(states, n);
        let (s, t) = (states[n as int], states[k as int]);
        assert(runs_on(states[n as int], states[n as int + 1]));
        assert(s.serving is None && t.serving is None);
        reveal(executes);
        reveal(works);
        super::runs::made_from_add(
            states[0].config,
            states[0].made(),
            states[0].applied as int,
            executed(states, n),
            run_of(s, t),
        );
    }
}

/// Where a replica that only runs its log on executed the entry `n`.
pub proof fn runs_hold<SM: StateMachine>(states: Seq<ReplicaModel<SM>>, k: nat, n: int) -> (at: int)
    requires
        k < states.len(),
        states[0].can_run(),
        forall|n: int| 0 <= n < k ==> runs_on(#[trigger] states[n], states[n + 1]),
        forall|n: int| 0 <= n <= k ==> (#[trigger] states[n]).serving is None,
        0 <= n < executed(states, k).len(),
    ensures
        0 <= at <= k,
        states[at].log_start < states[0].applied + n + 1 <= states[at].applied,
        states[at].applied <= states[at].commit_number,
        executed(states, k)[n] == states[at].entry(states[0].applied + n + 1),
    decreases k,
{
    let before = executed(states, (k - 1) as nat);
    runs_make(states, (k - 1) as nat);
    runs_make(states, k);
    if n < before.len() {
        runs_hold(states, (k - 1) as nat, n)
    } else {
        let (s, t) = (states[k - 1], states[k as int]);
        assert(runs_on(s, states[k - 1 + 1]));
        assert(executed(states, k)[n] == run_of(s, t)[n - before.len()]);
        k as int
    }
}

/// Over its life a replica makes of its state machine and its client table
/// what the entries that it executes do, one after another, as long as it
/// moves no checkpoint: nothing else that reaches it, and no order in which
/// it does, makes a difference.
pub proof fn a_life_makes_what_it_executes<SM: StateMachine>(
    id: ReplicaID,
    config: ConfigView,
    start: Start<SM>,
    life: Seq<ReplicaModel<SM>>,
    steps: Seq<Step<SM>>,
    k: nat,
)
    requires
        is_life(id, config, start, life, steps),
        k < life.len(),
        life[0].records.dom().finite(),
        forall|n: int| 0 <= n < k ==> !moves_checkpoint(life[n], #[trigger] steps[n]),
        forall|n: int| 0 <= n <= k ==> (#[trigger] life[n]).serving is None,
    ensures
        life[k as int].applied == life[0].applied + executed(life, k).len(),
        life[k as int].made() == made_from(
            life[0].config,
            life[0].made(),
            life[0].applied as int,
            executed(life, k),
        ),
{
    life_keeps(id, config, start, life, steps, 0);
    assert forall|n: int| 0 <= n < k implies runs_on(#[trigger] life[n], life[n + 1]) by {
        life_keeps(id, config, start, life, steps, n);
        assert(life[n].can_step(steps[n]));
        assert(!moves_checkpoint(life[n], steps[n]));
        step_runs_on(life[n], steps[n]);
    }
    runs_make(life, k);
}

/// Two replicas that start with the same state machine and client table and
/// execute the same entries, over lives in which they move no checkpoint,
/// hold the same state machine and the same client table.
pub proof fn lives_that_execute_the_same_are_alike<SM: StateMachine>(
    id: ReplicaID,
    config: ConfigView,
    start: Start<SM>,
    life: Seq<ReplicaModel<SM>>,
    steps: Seq<Step<SM>>,
    k: nat,
    other_id: ReplicaID,
    other_start: Start<SM>,
    other_life: Seq<ReplicaModel<SM>>,
    other_steps: Seq<Step<SM>>,
    m: nat,
)
    requires
        is_life(id, config, start, life, steps),
        k < life.len(),
        life[0].records.dom().finite(),
        forall|n: int| 0 <= n < k ==> !moves_checkpoint(life[n], #[trigger] steps[n]),
        forall|n: int| 0 <= n <= k ==> (#[trigger] life[n]).serving is None,
        is_life(other_id, config, other_start, other_life, other_steps),
        m < other_life.len(),
        forall|n: int| 0 <= n < m ==> !moves_checkpoint(other_life[n], #[trigger] other_steps[n]),
        forall|n: int| 0 <= n <= m ==> (#[trigger] other_life[n]).serving is None,
        life[0].config == other_life[0].config,
        life[0].made() == other_life[0].made(),
        life[0].applied == other_life[0].applied,
        executed(life, k) == executed(other_life, m),
    ensures
        life[k as int].machine == other_life[m as int].machine,
        life[k as int].records == other_life[m as int].records,
        life[k as int].applied == other_life[m as int].applied,
{
    a_life_makes_what_it_executes(id, config, start, life, steps, k);
    a_life_makes_what_it_executes(other_id, config, other_start, other_life, other_steps, m);
    assert(life[k as int].made().machine == other_life[m as int].made().machine);
    assert(life[k as int].made().records == other_life[m as int].made().records);
}

/// The next `count` entries that a replica has not executed.
pub open spec fn next_entries<SM: StateMachine>(s: ReplicaModel<SM>, count: nat) -> Seq<
    LogEntry<SM::Input>,
> {
    s.log.subrange(s.applied - s.log_start, s.applied - s.log_start + count)
}

/// What executing `count` entries makes of a state machine.
proof fn entries_make<SM: StateMachine>(s: ReplicaModel<SM>, count: nat)
    requires
        s.log_start <= s.applied,
        s.applied + count <= s.op_number() < usize::MAX,
    ensures
        s.execute_entries(count).made() == made_from(
            s.config,
            s.made(),
            s.applied as int,
            next_entries(s, count),
        ),
        s.execute_entries(count).applied == s.applied + count,
        s.execute_entries(count).log == s.log,
        s.execute_entries(count).log_start == s.log_start,
        s.execute_entries(count).config == s.config,
        s.execute_entries(count).view_number == s.view_number,
        s.execute_entries(count).reply_ranges == s.reply_ranges,
    decreases count,
{
    if count > 0 {
        entries_make(s, (count - 1) as nat);
        let entries = next_entries(s, count);
        assert(entries.drop_last() =~= next_entries(s, (count - 1) as nat));
        assert(entries.last() == s.entry(s.applied + count));
        let before = s.execute_entries((count - 1) as nat);
        assert(before.execute_next().made() == made_next(
            s.config,
            before.made(),
            (s.applied + count) as OpNumber,
            entries.last(),
        ));
    }
}

/// The reply to a request that executes carries the output of the state
/// machine that the entries before it make, at its own op number: the log
/// decides it, whichever replica replies.
pub proof fn a_reply_carries_the_output_at_its_op<SM: StateMachine>(
    s: ReplicaModel<SM>,
    count: nat,
)
    requires
        s.config.wf(),
        s.log_start <= s.applied,
        s.applied + count < s.op_number() < usize::MAX,
    ensures
        ({
            let made = made_from(s.config, s.made(), s.applied as int, next_entries(s, count));
            let op_number = (s.applied + count + 1) as OpNumber;
            let before = s.execute_entries(count);
            let after = s.execute_entries(count + 1);
            s.entry(op_number as int) matches LogEntry::Request {
                client_id,
                session,
                request_number,
                op,
                ..
            } ==> (made.records.contains_key(client_id) && made.records[client_id].session
                == session ==> ({
                let result = SM::output(made.machine, op_number, op);
                &&& after.replies == if in_ranges(s.reply_ranges, op_number) {
                    before.replies.push(
                        Reply::Executed {
                            view_number: s.view_number,
                            client_id,
                            session,
                            request_number,
                            result,
                        },
                    )
                } else {
                    before.replies
                }
                &&& after.records[client_id].replies.last() == result
                &&& after.records[client_id].request_number == request_number
            }))
        }),
{
    entries_make(s, count);
    let before = s.execute_entries(count);
    let made = before.made();
    assert(made.records == before.records && made.machine == before.machine);
    let op_number = (s.applied + count + 1) as OpNumber;
    assert(s.execute_entries(count + 1) == before.execute_next());
    assert(before.entry(op_number as int) == s.entry(op_number as int));
    if let LogEntry::Request { client_id, request_number, answered, op, .. } = s.entry(
        op_number as int,
    ) {
        let replies = made.records[client_id].replies.push(
            SM::output(made.machine, op_number, op),
        );
        let kept = min(max(request_number - answered, 1), s.config.in_flight_max as int);
        assert(keep_last(replies, kept).last() == replies.last());
    }
}

} // verus!
