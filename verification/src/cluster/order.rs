use vstd::prelude::*;
use super::agreement::{config_stays, settled_agree};
use super::branches::committed_is_chosen;
use super::history::{
    chosen_stays, committed_length, complete_is_ordered, has_stays, prefix_refl, History,
};
use super::induction::{
    can_step, knows_its_log, node_is, nothing_has_happened, power_is_lost, step_bears_out, Account,
};
use super::normal::bound;
use super::progress::{action_is_step, step_of};
use super::run::{is_run, Action, Cluster};
use super::safety::log_ok;
use crate::config::ConfigView;
use crate::ids::{ClientID, OpNumber, ReplicaID, ViewNumber};
use crate::log::{LogEntry, PersistentView};
use crate::message::MessageViewFor;
use crate::replica::keeps::{advances, goes_forward, goes_on};
use crate::replica::life::{
    come_back_executed, idle_step, loaded, message_step, owner_step, restart_keeps, Step,
};
use crate::replica::model::ReplicaModel;
use crate::replica::parts::Status;
use crate::replica::room::room_execute_entries;
use crate::replica::runs::{entries_execute, executes, knows_on, run_of};
use crate::replica::sessions::{marks, sessions_after};
use crate::state_machine::{RecordView, StateMachine};

verus! {

/// Whether `log` is what replica `s` has committed, settled in `h`.
pub open spec fn holds_of<SM: StateMachine>(
    h: History<SM::Input>,
    s: ReplicaModel<SM>,
    log: Seq<LogEntry<SM::Input>>,
) -> bool {
    &&& s.commit_number <= log.len()
    &&& s.commit_number <= s.op_number()
    &&& s.commit_number > 0 ==> h.settled(log, s.commit_number as nat)
    &&& forall|op_number: int|
        s.log_start < op_number <= s.commit_number ==> #[trigger] s.entry(op_number)
            == log[op_number - 1]
}

/// Whether replica `s` knows a log that is settled in `h`.
pub open spec fn in_step<SM: StateMachine>(h: History<SM::Input>, s: ReplicaModel<SM>) -> bool {
    &&& s.inv()
    &&& s.config == h.config
    &&& exists|log: Seq<LogEntry<SM::Input>>| #[trigger] holds_of(h, s, log) && s.knows(log)
}

/// What is settled stays so.
proof fn settled_stays<Op>(
    h: History<Op>,
    g: History<Op>,
    i: ReplicaID,
    log: Seq<LogEntry<Op>>,
    n: nat,
)
    requires
        h.wf(),
        h.grew(g, i),
        h.settled(log, n),
    ensures
        g.settled(log, n),
{
    let u = choose|u: ViewNumber| #[trigger] h.chosen(u, n) && h.has(log, u, n);
    chosen_stays(h, g, i, u, n);
    has_stays(h, g, i, log, u, n);
}

/// A part of what is settled is.
proof fn settled_less<Op>(h: History<Op>, log: Seq<LogEntry<Op>>, n: nat, m: nat)
    requires
        h.settled(log, n),
        m <= n,
    ensures
        h.settled(log, m),
{
    let u = choose|u: ViewNumber| #[trigger] h.chosen(u, n) && h.has(log, u, n);
    let q = choose|q: Set<ReplicaID>| h.is_quorum(q) && #[trigger] h.all_acked(q, u, n);
    assert(h.all_acked(q, u, m));
    assert(h.chosen(u, m));
    assert(log.take(m as int) =~= log.take(n as int).take(m as int));
    assert(h.log_of(u).take(m as int) =~= h.log_of(u).take(n as int).take(m as int));
    assert(h.has(log, u, m));
}

proof fn in_step_stays<SM: StateMachine>(
    h: History<SM::Input>,
    g: History<SM::Input>,
    i: ReplicaID,
    s: ReplicaModel<SM>,
)
    requires
        h.wf(),
        h.grew(g, i),
        in_step(h, s),
    ensures
        in_step(g, s),
{
    let log = choose|log: Seq<LogEntry<SM::Input>>| #[trigger] holds_of(h, s, log) && s.knows(log);
    if s.commit_number > 0 {
        settled_stays(h, g, i, log, s.commit_number as nat);
    }
    assert(holds_of(g, s, log));
}

/// The log that a replica has agrees with one that is settled.
proof fn log_agrees<SM: StateMachine>(
    c: Cluster<SM>,
    account: Account<SM::Input>,
    i: ReplicaID,
    known: Seq<LogEntry<SM::Input>>,
    n: nat,
)
    requires
        c.bears_out(account),
        i < c.config.size(),
        c.replicas[i as int].status != Status::Recovering,
        n <= c.replicas[i as int].commit_number,
        n <= known.len(),
        n > 0 ==> account.history.settled(known, n),
    ensures
        ({
            let s = c.replicas[i as int];
            let log = account.trails[i as int].ahead.logs[i as int];
            &&& s.inv()
            &&& s.config == c.config
            &&& holds_of(account.history, s, log)
            &&& log.len() == s.op_number()
            &&& log.skip(s.log_start as int) == s.log
            &&& log.take(n as int) == known.take(n as int)
            &&& account.history.ordered(log)
        }),
{
    let s = c.replicas[i as int];
    let h = account.history;
    let g = account.trails[i as int].ahead;
    assert(c.has_node(account, i));
    node_is(h, i, s, c.disks[i as int], account.trails[i as int]);
    let log = g.logs[i as int];
    let m = s.commit_number as nat;
    assert(g.committed(log, m, bound(s)) && log.len() == s.op_number() && log.skip(
        s.log_start as int,
    ) == s.log && s.config == g.config) by {
        reveal(log_ok);
    }
    committed_length(g, log, m, bound(s));
    prefix_refl(log);
    assert(g.ordered(log)) by {
        reveal(log_ok);
        if s.status == Status::ViewChange {
            complete_is_ordered(g, log, log, s.last_normal_view as int);
        } else {
            complete_is_ordered(g, log, log, s.view_number as int);
        }
    }
    if m > 0 {
        let u = committed_is_chosen(h, g, i, log, m, bound(s));
        assert(h.chosen(u, m));
        assert(h.settled(log, m));
    }
    assert forall|op_number: int| s.log_start < op_number <= s.commit_number implies #[trigger] s.entry(
        op_number,
    ) == log[op_number - 1] by {
        assert(log.skip(s.log_start as int)[op_number - s.log_start - 1] == log[op_number - 1]);
    }
    assert forall|k: int| 0 <= k < n implies log[k] == known[k] by {
        settled_agree(h, log, m, known, n, k);
    }
    assert(log.take(n as int) =~= known.take(n as int));
}

/// What a replica has committed, given what is known of its start.
proof fn finds_log<SM: StateMachine>(
    c: Cluster<SM>,
    account: Account<SM::Input>,
    i: ReplicaID,
    known: Seq<LogEntry<SM::Input>>,
    n: nat,
) -> (log: Seq<LogEntry<SM::Input>>)
    requires
        c.bears_out(account),
        i < c.config.size(),
        c.replicas[i as int].log_start <= n <= c.replicas[i as int].applied,
        n <= known.len(),
        n > 0 ==> account.history.settled(known, n),
    ensures
        ({
            let s = c.replicas[i as int];
            &&& s.inv()
            &&& s.config == c.config
            &&& holds_of(account.history, s, log)
            &&& log.take(n as int) == known.take(n as int)
            &&& s.commit_number > n ==> account.history.ordered(log)
        }),
{
    let s = c.replicas[i as int];
    assert(c.has_node(account, i));
    node_is(account.history, i, s, c.disks[i as int], account.trails[i as int]);
    if s.status == Status::Recovering {
        reveal(log_ok);
        known
    } else {
        log_agrees(c, account, i, known, n);
        account.trails[i as int].ahead.logs[i as int]
    }
}

/// A replica that goes on from where it knew a log knows on.
proof fn goes_on_in_step<SM: StateMachine>(
    c: Cluster<SM>,
    account: Account<SM::Input>,
    i: ReplicaID,
    s: ReplicaModel<SM>,
    known: Seq<LogEntry<SM::Input>>,
)
    requires
        c.bears_out(account),
        account.history.orderly,
        i < c.config.size(),
        s.inv(),
        s.config == c.config,
        s.knows(known),
        s.applied > 0 ==> account.history.settled(known, s.applied as nat),
        executes(s, c.replicas[i as int]),
        c.replicas[i as int].log_start <= s.applied,
    ensures
        in_step(account.history, c.replicas[i as int]),
        s.ok && c.replicas[i as int].fits ==> c.replicas[i as int].ok,
{
    let t = c.replicas[i as int];
    assert(s.applied <= t.applied) by {
        reveal(executes);
    }
    let log = finds_log(c, account, i, known, s.applied as nat);
    let a = s.applied as int;
    assert(log.take(a) == known.take(a));
    assert(s.has_executed(log));
    assert(s.knows(log));
    assert(run_of(s, t) =~= log.subrange(a, t.applied as int)) by {
        assert forall|k: int| 0 <= k < t.applied - a implies run_of(s, t)[k] == log[a + k] by {
            assert(run_of(s, t)[k] == t.entry(a + k + 1));
        }
    }
    knows_on(s, t, log);
}

/// Whether replica `s` comes to a client table like `table` once it has
/// executed the first `n` ops: the same sessions, each at the same request.
pub open spec fn comes_to<SM: StateMachine>(
    s: ReplicaModel<SM>,
    n: OpNumber,
    table: Map<ClientID, RecordView<SM::Output>>,
) -> bool {
    &&& s.applied <= n <= s.commit_number
    &&& table.dom().finite()
    &&& marks(table) == marks(s.execute_entries((n - s.applied) as nat).records)
}

/// Whether some replica has come to a client table like `table` in the first
/// `k` actions of a run, with what it has committed, by executing the first
/// `n` ops.
pub open spec fn table_of_run<SM: StateMachine>(
    run: Seq<Cluster<SM>>,
    k: int,
    n: OpNumber,
    table: Map<ClientID, RecordView<SM::Output>>,
) -> bool {
    exists|m: int, j: int|
        0 <= m <= k && 0 <= j < run[m].replicas.len() && #[trigger] comes_to(
            run[m].replicas[j],
            n,
            table,
        )
}

/// Whether the client table that `action` takes over from a state machine, if
/// it takes one, is that of the op number that the state machine is at.
pub open spec fn takes_table<SM: StateMachine>(
    run: Seq<Cluster<SM>>,
    k: int,
    action: Action<SM>,
) -> bool {
    let c = run[k];
    match action {
        Action::Deliver { index, .. } => {
            let s = c.replicas[c.sent[index].0 as int];
            let restored = s.restored(c.sent[index].1);
            s.restores(c.sent[index].1) ==> table_of_run(
                run,
                k,
                restored.applied,
                restored.records,
            )
        },
        Action::Restart { machine, applied, .. } => table_of_run(
            run,
            k,
            applied,
            SM::table(machine),
        ),
        _ => true,
    }
}

/// What a replica comes to is settled.
proof fn comes_to_settled<SM: StateMachine>(
    h: History<SM::Input>,
    s: ReplicaModel<SM>,
    n: OpNumber,
    table: Map<ClientID, RecordView<SM::Output>>,
) -> (log: Seq<LogEntry<SM::Input>>)
    requires
        in_step(h, s),
        comes_to(s, n, table),
    ensures
        n <= log.len(),
        n > 0 ==> h.settled(log, n as nat),
        marks(table) == sessions_after(h.config.clients_max as nat, log.take(n as int)),
{
    let log = choose|log: Seq<LogEntry<SM::Input>>| #[trigger] holds_of(h, s, log) && s.knows(log);
    let count = (n - s.applied) as nat;
    entries_execute(s, count);
    let t = s.execute_entries(count);
    assert(t.config == s.config) by {
        reveal(executes);
    }
    assert(run_of(s, t) =~= log.subrange(s.applied as int, n as int)) by {
        assert forall|k: int| 0 <= k < count implies run_of(s, t)[k] == log[s.applied + k] by {
            assert(run_of(s, t)[k] == s.entry(s.applied + k + 1));
        }
    }
    knows_on(s, t, log);
    if n > 0 {
        settled_less(h, log, s.commit_number as nat, n as nat);
    }
    log
}

/// A replica that has restored a checkpoint, and whose client table is that
/// of its op number, knows a log.
proof fn restored_knows<SM: StateMachine>(
    s: ReplicaModel<SM>,
    message: MessageViewFor<SM>,
    log: Seq<LogEntry<SM::Input>>,
)
    requires
        s.restores(message),
        s.restored(message).applied <= log.len(),
        s.restored(message).records.dom().finite(),
        marks(s.restored(message).records) == sessions_after(
            s.config.clients_max as nat,
            log.take(s.restored(message).applied as int),
        ),
    ensures
        s.restored(message).knows(log),
        s.restored(message).config == s.config,
        s.ok && s.restored(message).fits ==> s.restored(message).ok,
{
    let r = s.restored(message);
    assert(r.pending == r.tail_pending());
}

/// A replica that is back from a crash has lost no entry that is pending.
proof fn back_knows<SM: StateMachine>(
    id: ReplicaID,
    config: ConfigView,
    machine: SM::State,
    applied: OpNumber,
    state: PersistentView<SM::Input>,
    nonce: u64,
    log: Seq<LogEntry<SM::Input>>,
)
    requires
        config.is_cluster(),
        SM::table(machine).dom().finite(),
        applied <= log.len(),
        marks(SM::table(machine)) == sessions_after(
            config.clients_max as nat,
            log.take(applied as int),
        ),
    ensures
        ({
            let ready = loaded::<SM>(id, config, machine, applied, state, nonce);
            let back = come_back_executed::<SM>(id, config, machine, applied, state, nonce);
            &&& ready.config == config
            &&& ready.applied == applied
            &&& ready.has_executed(log)
            &&& ready.ok
            &&& back.pending == back.tail_pending()
        }),
{
}

/// What an action makes of its replica knows a log too, and asks nothing of
/// the order of the requests that is not so.
#[verifier::rlimit(40)]
proof fn action_keeps_step<SM: StateMachine>(
    run: Seq<Cluster<SM>>,
    k: int,
    action: Action<SM>,
    next: Account<SM::Input>,
)
    requires
        0 <= k < run.len(),
        run[k].can(action),
        takes_table(run, k, action),
        run[k].next(action).bears_out(next),
        next.history.orderly,
        run[k].replicas.len() == run[k].config.size(),
        run[k].config.is_cluster(),
        forall|m: int, j: int|
            0 <= m <= k && 0 <= j < run[m].replicas.len() ==> in_step(
                next.history,
                #[trigger] run[m].replicas[j],
            ),
        run[k].replicas[action.replica_id(run[k]) as int].ok,
    ensures
        in_step(next.history, run[k].stepped(action)),
        run[k].stepped(action).ok,
{
    let c = run[k];
    let d = c.next(action);
    let g = next.history;
    let i = action.replica_id(c);
    can_step(c, action);
    let s = c.replicas[i as int];
    let t = d.replicas[i as int];
    assert(t == c.stepped(action) && t.fits);
    assert(in_step(g, s));
    let known = choose|log: Seq<LogEntry<SM::Input>>| #[trigger] holds_of(g, s, log) && s.knows(log);
    if s.applied > 0 {
        settled_less(g, known, s.commit_number as nat, s.applied as nat);
    }
    match action {
        Action::Restart { landed, machine, applied, nonce, .. } => {
            restart_keeps_step(run, k, action, next);
        },
        Action::Recover { machine, view_number, nonce, .. } => {
            assert(d.has_node(next, i));
            node_is(g, i, t, d.disks[i as int], next.trails[i as int]);
            assert(t == ReplicaModel::<SM>::recover(i, c.config, machine, view_number, nonce)) by {
                reveal(Cluster::stepped);
            }
            recovers_in_step::<SM>(g, i, machine, view_number, nonce);
        },
        _ => {
            let step = step_of(c, action);
            action_is_step(c, action);
            match step {
                Step::Message { message, chunk } => {
                    message_step(s, message, chunk);
                    if s.restores(message) {
                        let r = s.restored(message);
                        assert(action is Deliver) by {
                            reveal(Cluster::can);
                        }
                        assert(table_of_run(run, k, r.applied, r.records));
                        let (m, j) = choose|m: int, j: int|
                            0 <= m <= k && 0 <= j < run[m].replicas.len() && #[trigger] comes_to(
                                run[m].replicas[j],
                                r.applied,
                                r.records,
                            );
                        assert(in_step(g, run[m].replicas[j]));
                        let log = comes_to_settled(g, run[m].replicas[j], r.applied, r.records);
                        restored_knows(s, message, log);
                        assert(executes(r, t) && t.log_start == r.log_start) by {
                            reveal(goes_on);
                        }
                        assert(r.fits) by {
                            reveal(executes);
                        }
                        goes_on_in_step(d, next, i, r, log);
                    } else {
                        assert(executes(s, t)) by {
                            reveal(advances);
                        }
                        goes_on_in_step(d, next, i, s, known);
                    }
                },
                Step::Idle => {
                    idle_step(s);
                    assert(executes(s, t) && t.log_start == s.log_start) by {
                        reveal(advances);
                        reveal(goes_on);
                    }
                    goes_on_in_step(d, next, i, s, known);
                },
                _ => {
                    owner_step(s, step);
                    goes_on_in_step(d, next, i, s, known);
                },
            }
        },
    }
}

/// A replica that recovers has executed nothing.
proof fn recovers_in_step<SM: StateMachine>(
    h: History<SM::Input>,
    i: ReplicaID,
    machine: SM::State,
    view_number: ViewNumber,
    nonce: u64,
)
    requires
        ReplicaModel::<SM>::recover(i, h.config, machine, view_number, nonce).inv(),
    ensures
        in_step(h, ReplicaModel::<SM>::recover(i, h.config, machine, view_number, nonce)),
        ReplicaModel::<SM>::recover(i, h.config, machine, view_number, nonce).ok,
{
    let t = ReplicaModel::<SM>::recover(i, h.config, machine, view_number, nonce);
    let none = Seq::<LogEntry<SM::Input>>::empty();
    assert(marks(t.records) =~= Map::empty());
    assert(none.take(0) =~= none);
    assert(t.tail() =~= none);
    assert(holds_of(h, t, none));
    assert(t.knows(none));
}

/// A replica that comes back from where it had executed a log knows it.
proof fn comes_back_in_step<SM: StateMachine>(
    d: Cluster<SM>,
    next: Account<SM::Input>,
    i: ReplicaID,
    ready: ReplicaModel<SM>,
    back: ReplicaModel<SM>,
    known: Seq<LogEntry<SM::Input>>,
)
    requires
        d.bears_out(next),
        next.history.orderly,
        i < d.config.size(),
        ready.inv(),
        ready.config == d.config,
        ready.has_executed(known),
        ready.applied > 0 ==> next.history.settled(known, ready.applied as nat),
        ready.ok,
        executes(ready, back),
        back.log_start == ready.log_start,
        back.inv(),
        back.pending == back.tail_pending(),
        goes_on(back, d.replicas[i as int]),
        d.replicas[i as int].fits,
    ensures
        in_step(next.history, d.replicas[i as int]),
        d.replicas[i as int].ok,
{
    let t = d.replicas[i as int];
    let a = ready.applied as int;
    assert(executes(back, t) && t.log_start == back.log_start && goes_forward(back, t)) by {
        reveal(goes_on);
    }
    assert(ready.can_run());
    assert(back.can_run() && a <= back.applied && back.config == d.config) by {
        reveal(executes);
    }
    assert(back.applied <= t.applied && back.fits) by {
        reveal(executes);
    }
    let log = finds_log(d, next, i, known, a as nat);
    assert(log.take(a) == known.take(a));
    assert(ready.has_executed(log));
    assert(run_of(ready, back) =~= log.subrange(a, back.applied as int)) by {
        assert forall|n: int| 0 <= n < back.applied - a implies run_of(ready, back)[n] == log[a
            + n] by {
            assert(run_of(ready, back)[n] == back.entry(a + n + 1));
            assert(t.entry(a + n + 1) == back.entry(a + n + 1));
        }
    }
    knows_on(ready, back, log);
    assert(back.knows(log));
    let b = back.applied as int;
    assert(run_of(back, t) =~= log.subrange(b, t.applied as int)) by {
        assert forall|n: int| 0 <= n < t.applied - b implies run_of(back, t)[n] == log[b + n] by {
            assert(run_of(back, t)[n] == t.entry(b + n + 1));
        }
    }
    knows_on(back, t, log);
}

/// What a crash makes of a replica knows a log too.
proof fn restart_keeps_step<SM: StateMachine>(
    run: Seq<Cluster<SM>>,
    k: int,
    action: Action<SM>,
    next: Account<SM::Input>,
)
    requires
        0 <= k < run.len(),
        run[k].can(action),
        action is Restart,
        takes_table(run, k, action),
        run[k].next(action).bears_out(next),
        next.history.orderly,
        run[k].replicas.len() == run[k].config.size(),
        run[k].config.is_cluster(),
        forall|m: int, j: int|
            0 <= m <= k && 0 <= j < run[m].replicas.len() ==> in_step(
                next.history,
                #[trigger] run[m].replicas[j],
            ),
    ensures
        in_step(next.history, run[k].stepped(action)),
        run[k].stepped(action).ok,
{
    let c = run[k];
    let d = c.next(action);
    let g = next.history;
    let i = action.replica_id(c);
    can_step(c, action);
    let t = d.replicas[i as int];
    assert(t == c.stepped(action) && t.fits);
    power_is_lost(c, action);
    let (landed, machine, applied, nonce) = (
        action->landed,
        action->Restart_machine,
        action->applied,
        action->Restart_nonce,
    );
    let state = c.disks[i as int].survivor(landed).state;
    restart_keeps::<SM>(i, c.config, machine, applied, state, nonce);
    let table = SM::table(machine);
    assert(table_of_run(run, k, applied, table));
    let (m, j) = choose|m: int, j: int|
        0 <= m <= k && 0 <= j < run[m].replicas.len() && #[trigger] comes_to(
            run[m].replicas[j],
            applied,
            table,
        );
    assert(in_step(g, run[m].replicas[j]));
    let known = comes_to_settled(g, run[m].replicas[j], applied, table);
    back_knows::<SM>(i, c.config, machine, applied, state, nonce, known);
    let ready = loaded::<SM>(i, c.config, machine, applied, state, nonce);
    let back = come_back_executed::<SM>(i, c.config, machine, applied, state, nonce);
    comes_back_in_step(d, next, i, ready, back, known);
}

/// Whether every client table that the first `k` actions of a run take over
/// from a state machine is that of the op number that the state machine is
/// at: a state machine keeps the client table that it is told of, in its
/// checkpoints and over a crash.
pub open spec fn tables_kept<SM: StateMachine>(
    run: Seq<Cluster<SM>>,
    actions: Seq<Action<SM>>,
    k: int,
) -> bool {
    forall|m: int| 0 <= m < k ==> takes_table(run, m, #[trigger] actions[m])
}

/// A replica that leads its view and knows a log knows the one it has.
proof fn leader_knows<SM: StateMachine>(
    c: Cluster<SM>,
    account: Account<SM::Input>,
    i: ReplicaID,
)
    requires
        c.bears_out(account),
        i < c.config.size(),
        in_step(account.history, c.replicas[i as int]),
    ensures
        knows_its_log(c, account, i),
{
    let s = c.replicas[i as int];
    let h = account.history;
    if s.leads() {
        let known = choose|log: Seq<LogEntry<SM::Input>>| #[trigger]
            holds_of(h, s, log) && s.knows(log);
        let a = s.applied as int;
        if a > 0 {
            settled_less(h, known, s.commit_number as nat, a as nat);
        }
        log_agrees(c, account, i, known, a as nat);
        let log = account.trails[i as int].ahead.logs[i as int];
        assert(log.take(a) == known.take(a));
        assert(s.knows(log));
    }
}

/// A replica that is new has executed nothing.
proof fn starts_in_step<SM: StateMachine>(h: History<SM::Input>, i: ReplicaID, machine: SM::State)
    requires
        ReplicaModel::<SM>::init(i, h.config, machine).inv(),
    ensures
        in_step(h, ReplicaModel::<SM>::init(i, h.config, machine)),
{
    let t = ReplicaModel::<SM>::init(i, h.config, machine);
    let none = Seq::<LogEntry<SM::Input>>::empty();
    assert(marks(t.records) =~= Map::empty());
    assert(none.take(0) =~= none);
    assert(t.tail() =~= none);
    assert(holds_of(h, t, none));
    assert(t.knows(none));
}

/// Every state of a run bears out a history in which the primaries append in
/// order, and every replica so far knows a log that is settled in it.
proof fn run_keeps_step<SM: StateMachine>(
    config: ConfigView,
    machines: Seq<SM::State>,
    run: Seq<Cluster<SM>>,
    actions: Seq<Action<SM>>,
    k: int,
) -> (account: Account<SM::Input>)
    requires
        is_run(config, machines, run, actions),
        tables_kept(run, actions, k),
        0 <= k < run.len(),
    ensures
        run[k].bears_out(account),
        account.history.orderly,
        forall|m: int, j: int|
            0 <= m <= k && 0 <= j < run[m].replicas.len() ==> in_step(
                account.history,
                #[trigger] run[m].replicas[j],
            ),
        forall|j: int|
            0 <= j < run[k].replicas.len() ==> (#[trigger] run[k].replicas[j]).ok,
    decreases k,
{
    if k == 0 {
        let account = nothing_has_happened::<SM>(config, machines, true);
        let h = account.history;
        assert forall|m: int, j: int| 0 <= m <= k && 0 <= j < run[m].replicas.len() implies in_step(
            h,
            #[trigger] run[m].replicas[j],
        ) by {
            let i = j as ReplicaID;
            assert(run[0].has_node(account, i));
            node_is(h, i, run[0].replicas[j], run[0].disks[j], account.trails[j]);
            starts_in_step::<SM>(h, i, machines[j]);
        }
        account
    } else {
        let before = run_keeps_step(config, machines, run, actions, k - 1);
        let c = run[k - 1];
        let action = actions[k - 1];
        assert(c.can(action));
        assert(run[k] == c.next(action));
        can_step(c, action);
        let i = action.replica_id(c);
        assert(c.replicas[i as int].ok);
        assert(in_step(before.history, c.replicas[i as int]));
        leader_knows(c, before, i);
        let account = step_bears_out(c, before, action);
        let (h, g) = (before.history, account.history);
        assert forall|m: int, j: int|
            0 <= m <= k - 1 && 0 <= j < run[m].replicas.len() implies in_step(
            g,
            #[trigger] run[m].replicas[j],
        ) by {
            in_step_stays(h, g, i, run[m].replicas[j]);
        }
        assert(takes_table(run, k - 1, actions[k - 1]));
        action_keeps_step(run, k - 1, action, account);
        assert forall|j: int| 0 <= j < run[k].replicas.len() implies in_step(
            g,
            #[trigger] run[k].replicas[j],
        ) && run[k].replicas[j].ok by {
            if j != i {
                assert(run[k].replicas[j] == run[k - 1].replicas[j]);
                assert(in_step(g, run[k - 1].replicas[j]));
                assert(run[k - 1].replicas[j].ok);
            }
        }
        account
    }
}

/// No replica of a cluster ever finds anything else than what it asserts: as
/// long as its counters have room and the state machine takes its calls, it
/// is `ok`. The requests of each session commit in the order of their
/// numbers, whatever the network does, so that a request that executes is
/// always its session's next.
pub proof fn replicas_stay_ok<SM: StateMachine>(
    config: ConfigView,
    machines: Seq<SM::State>,
    run: Seq<Cluster<SM>>,
    actions: Seq<Action<SM>>,
    k: int,
    i: ReplicaID,
)
    requires
        is_run(config, machines, run, actions),
        tables_kept(run, actions, k),
        0 <= k < run.len(),
        i < config.size(),
    ensures
        run[k].replicas[i as int].ok,
{
    config_stays(config, machines, run, actions, k);
    let account = run_keeps_step(config, machines, run, actions, k);
    assert(run[k].replicas[i as int].ok);
}

/// The requests that a replica has committed execute in the order of their
/// numbers: whatever of them it executes, each is its session's next.
pub proof fn what_is_committed_executes_in_order<SM: StateMachine>(
    config: ConfigView,
    machines: Seq<SM::State>,
    run: Seq<Cluster<SM>>,
    actions: Seq<Action<SM>>,
    k: int,
    i: ReplicaID,
    count: nat,
)
    requires
        is_run(config, machines, run, actions),
        tables_kept(run, actions, k),
        0 <= k < run.len(),
        i < config.size(),
        run[k].replicas[i as int].applied + count <= run[k].replicas[i as int].commit_number,
        run[k].replicas[i as int].execute_entries(count).room,
    ensures
        run[k].replicas[i as int].execute_entries(count).ok,
{
    config_stays(config, machines, run, actions, k);
    let account = run_keeps_step(config, machines, run, actions, k);
    let h = account.history;
    let s = run[k].replicas[i as int];
    assert(in_step(h, s) && s.ok && s.fits);
    let known = choose|log: Seq<LogEntry<SM::Input>>| #[trigger] holds_of(h, s, log) && s.knows(log);
    let a = s.applied as int;
    if a > 0 {
        settled_less(h, known, s.commit_number as nat, a as nat);
    }
    let log = finds_log(run[k], account, i, known, a as nat);
    assert(log.take(a) == known.take(a));
    assert(s.has_executed(log));
    entries_execute(s, count);
    let t = s.execute_entries(count);
    assert(run_of(s, t) =~= log.subrange(a, a + count)) by {
        assert forall|n: int| 0 <= n < count implies run_of(s, t)[n] == log[a + n] by {
            assert(run_of(s, t)[n] == s.entry(a + n + 1));
        }
    }
    room_execute_entries(s, count);
    knows_on(s, t, log);
}

/// A message that was sent, and reaches its replica, leaves it `ok`.
pub proof fn a_message_leaves_its_replica_ok<SM: StateMachine>(
    config: ConfigView,
    machines: Seq<SM::State>,
    run: Seq<Cluster<SM>>,
    actions: Seq<Action<SM>>,
    k: int,
    index: int,
    chunk: (SM::Chunk, bool),
)
    requires
        is_run(config, machines, run, actions),
        tables_kept(run, actions, k),
        0 <= k < run.len(),
        run[k].can(Action::Deliver { index, chunk }),
        takes_table(run, k, Action::Deliver { index, chunk }),
    ensures
        run[k].replicas[run[k].sent[index].0 as int].on_message(run[k].sent[index].1, chunk).ok,
{
    let action = Action::<SM>::Deliver { index, chunk };
    config_stays(config, machines, run, actions, k);
    let before = run_keeps_step(config, machines, run, actions, k);
    let c = run[k];
    can_step(c, action);
    let i = action.replica_id(c);
    assert(c.replicas[i as int].ok);
    assert(in_step(before.history, c.replicas[i as int]));
    leader_knows(c, before, i);
    let account = step_bears_out(c, before, action);
    assert forall|m: int, j: int| 0 <= m <= k && 0 <= j < run[m].replicas.len() implies in_step(
        account.history,
        #[trigger] run[m].replicas[j],
    ) by {
        in_step_stays(before.history, account.history, i, run[m].replicas[j]);
    }
    action_keeps_step(run, k, action, account);
    reveal(Cluster::stepped);
}

} // verus!
