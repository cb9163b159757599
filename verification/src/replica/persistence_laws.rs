use vstd::prelude::*;
use super::frames::{frame_apply_committed, frame_commit_up_to};
use super::keeps::{advances, executed_durable, marks_changes};
use super::life::{
    come_back_executed, is_life, life_keeps, owner_steps, replayed, restart_keeps, step_keeps, Start,
    Step,
};
use super::model::{max, ReplicaModel};
use super::parts::Status;
use super::steps::persisted_advances;
use crate::config::ConfigView;
use crate::ids::{OpNumber, ReplicaID, ViewNumber};
use crate::log::PersistentView;
use crate::state_machine::StateMachine;

verus! {

/// Whether `disk` holds the replica's state as of the last write taken: the
/// entries that have not changed since, and nothing after them unless they
/// have.
pub open spec fn in_step<SM: StateMachine>(
    s: ReplicaModel<SM>,
    disk: PersistentView<SM::Input>,
) -> bool {
    let end = max(disk.end(), s.log_start as int);
    &&& disk.log_start <= s.log_start
    &&& disk.end() < usize::MAX
    &&& end >= s.unchanged()
    &&& s.log_changed_from is None ==> end == s.op_number()
    &&& forall|op_number: int|
        s.log_start < op_number && op_number <= s.unchanged() ==> disk.log[op_number
            - disk.log_start - 1] == #[trigger] s.entry(op_number)
    &&& s.written matches Some(written) ==> {
        &&& disk.view_number == written.view_number
        &&& disk.last_normal_view == written.last_normal_view
        &&& disk.recovering == written.recovering
        &&& disk.log_start == written.log_start
    }
}

/// A new replica is in step with an empty disk.
pub proof fn new_replica_is_in_step<SM: StateMachine>(
    self_id: ReplicaID,
    config: ConfigView,
    machine: SM::State,
)
    ensures
        in_step(
            ReplicaModel::<SM>::init(self_id, config, machine),
            PersistentView::<SM::Input>::empty(),
        ),
{
}

/// A step that marks what it changes stays in step with the disk.
pub proof fn steps_stay_in_step<SM: StateMachine>(
    s: ReplicaModel<SM>,
    t: ReplicaModel<SM>,
    disk: PersistentView<SM::Input>,
)
    requires
        in_step(s, disk),
        advances(s, t),
    ensures
        in_step(t, disk),
{
    reveal(advances);
    marked_stays_in_step(s, t, disk);
}

proof fn marked_stays_in_step<SM: StateMachine>(
    s: ReplicaModel<SM>,
    t: ReplicaModel<SM>,
    disk: PersistentView<SM::Input>,
)
    requires
        in_step(s, disk),
        marks_changes(s, t),
    ensures
        in_step(t, disk),
{
    assert forall|op_number: int|
        t.log_start < op_number && op_number <= t.unchanged() implies disk.log[op_number
        - disk.log_start - 1] == #[trigger] t.entry(op_number) by {
        assert(t.entry(op_number) == s.entry(op_number));
    }
}

/// A disk in step takes the replica's next write, holds the replica's whole
/// persistent state after it, and stays in step.
pub proof fn write_brings_the_disk_up_to_date<SM: StateMachine>(
    s: ReplicaModel<SM>,
    disk: PersistentView<SM::Input>,
)
    requires
        s.inv(),
        in_step(s, disk),
    ensures
        disk.takes(s.write()),
        disk.apply(s.write()) == s.persistent_state(),
        in_step(s.take_write(), disk.apply(s.write())),
{
    let write = s.write();
    let kept = disk.compacted(s.log_start);
    let from = write.entries_from as int;
    assert forall|i: int| 0 <= i < from - s.log_start - 1 implies #[trigger] kept.log[i]
        == s.log[i] by {
        assert(s.entry(s.log_start + i + 1) == s.log[i]);
    }
    assert(disk.apply(write).log =~= s.log);
}

/// A replica that recovers is in step with an empty disk.
pub proof fn recovered_replica_is_in_step<SM: StateMachine>(
    self_id: ReplicaID,
    config: ConfigView,
    machine: SM::State,
    view_number: ViewNumber,
    nonce: u64,
)
    ensures
        in_step(
            ReplicaModel::<SM>::recover(self_id, config, machine, view_number, nonce),
            PersistentView::<SM::Input>::empty(),
        ),
{
}

/// A replica that is back from a crash is in step with the disk it came back
/// from.
pub proof fn restarted_replica_is_in_step<SM: StateMachine>(
    self_id: ReplicaID,
    config: ConfigView,
    machine: SM::State,
    applied: OpNumber,
    state: PersistentView<SM::Input>,
    nonce: u64,
)
    requires
        config.is_cluster(),
        ReplicaModel::<SM>::can_restart(machine, applied, state),
        state.recovering ==> state.log.len() == 0 && state.log_start <= applied,
        ReplicaModel::<SM>::restart(self_id, config, machine, applied, state, nonce).fits,
    ensures
        in_step(
            ReplicaModel::<SM>::restart(self_id, config, machine, applied, state, nonce),
            state,
        ),
{
    broadcast use frame_apply_committed;

    reveal(ReplicaModel::restart);
    restart_keeps::<SM>(self_id, config, machine, applied, state, nonce);
    let back = come_back_executed::<SM>(self_id, config, machine, applied, state, nonce);
    assert(in_step(back, state)) by {
        assert forall|op_number: int|
            back.log_start < op_number && op_number <= back.unchanged() implies state.log[op_number
            - state.log_start - 1] == #[trigger] back.entry(op_number) by {}
    }
    steps_stay_in_step(
        back,
        ReplicaModel::<SM>::restart(self_id, config, machine, applied, state, nonce),
        state,
    );
}

/// Handing a write back stays in step with the disk.
pub proof fn persisted_stays_in_step<SM: StateMachine>(
    s: ReplicaModel<SM>,
    disk: PersistentView<SM::Input>,
)
    requires
        s.inv(),
        s.outstanding is Some,
        in_step(s, disk),
    ensures
        in_step(s.persisted(), disk),
{
    reveal(ReplicaModel::persisted);
    persisted_advances(s);
    marked_stays_in_step(s, s.persisted(), disk);
}

/// Whatever writes a replica has taken, from whatever start: a disk that has
/// applied them in order takes the next one, and holds the replica's whole
/// persistent state after it.
pub proof fn replaying_the_writes_rebuilds_the_state<SM: StateMachine>(
    id: ReplicaID,
    config: ConfigView,
    start: Start<SM>,
    life: Seq<ReplicaModel<SM>>,
    steps: Seq<Step<SM>>,
    k: nat,
)
    requires
        is_life(id, config, start, life, steps),
        k < life.len(),
    ensures
        in_step(life[k as int], replayed(start, life, steps, k)),
        replayed(start, life, steps, k).takes(life[k as int].write()),
        replayed(start, life, steps, k).apply(life[k as int].write())
            == life[k as int].persistent_state(),
    decreases k,
{
    life_keeps(id, config, start, life, steps, k as int);
    let disk = replayed(start, life, steps, k);
    if k == 0 {
        match start {
            Start::New { machine } => new_replica_is_in_step::<SM>(id, config, machine),
            Start::Recover { machine, view_number, nonce } => {
                recovered_replica_is_in_step::<SM>(id, config, machine, view_number, nonce);
            },
            Start::Restart { machine, applied, state, nonce } => {
                restarted_replica_is_in_step::<SM>(id, config, machine, applied, state, nonce);
            },
        }
    } else {
        let j = (k - 1) as nat;
        replaying_the_writes_rebuilds_the_state(id, config, start, life, steps, j);
        life_keeps(id, config, start, life, steps, j as int);
        assert(life[j as int].can_step(steps[j as int]));
        step_stays_in_step(life[j as int], steps[j as int], replayed(start, life, steps, j));
    }
    write_brings_the_disk_up_to_date(life[k as int], disk);
}

/// A step stays in step with the disk, which a write that it takes is
/// applied to.
pub proof fn step_stays_in_step<SM: StateMachine>(
    s: ReplicaModel<SM>,
    step: Step<SM>,
    disk: PersistentView<SM::Input>,
)
    requires
        s.inv(),
        s.can_step(step),
        in_step(s, disk),
    ensures
        in_step(
            s.stepped(step),
            if step is TakeWrite {
                disk.apply(s.write())
            } else {
                disk
            },
        ),
{
    if step is Message || step is Idle || step is Compact {
        step_keeps(s, step);
        steps_stay_in_step(s, s.stepped(step), disk);
    } else {
        owner_steps(s, step);
        if step is TakeWrite {
            write_brings_the_disk_up_to_date(s, disk);
        } else if step is Persisted {
            persisted_stays_in_step(s, disk);
        } else {
            let t = s.stepped(step);
            assert forall|op_number: int| #[trigger] t.entry(op_number) == s.entry(op_number) by {}
        }
    }
}

/// A write that needs no sync changes nothing on a disk in step but the
/// commit number, so that the owner may skip it.
pub proof fn unsynced_write_changes_only_the_commit_number<SM: StateMachine>(
    s: ReplicaModel<SM>,
    disk: PersistentView<SM::Input>,
)
    requires
        s.inv(),
        in_step(s, disk),
        !s.write().sync,
    ensures
        disk.apply(s.write()) == (PersistentView { commit_number: s.commit_number, ..disk }),
{
    write_brings_the_disk_up_to_date(s, disk);
    assert forall|i: int| 0 <= i < disk.log.len() implies #[trigger] disk.log[i] == s.log[i] by {
        assert(s.entry(s.log_start + i + 1) == s.log[i]);
    }
    assert(disk.log =~= s.log);
}

/// The first write of a replica that is new or recovering needs a sync, and
/// so does any write after an entry, the view, the status or the start of
/// the log changed.
pub proof fn writes_that_need_a_sync<SM: StateMachine>(s: ReplicaModel<SM>)
    ensures
        s.write().sync <==> s.written is None || s.log_changed_from is Some || s.written != Some(
            s.recorded(),
        ),
{
}

/// What a replica held as of a write is what it comes back with from it: its
/// view, its commit number and its log, as long as the state machine has not
/// applied more than what the write records as committed.
pub proof fn restart_gives_back_what_was_written<SM: StateMachine>(
    s: ReplicaModel<SM>,
    disk: PersistentView<SM::Input>,
    machine: SM::State,
    applied: OpNumber,
    nonce: u64,
)
    requires
        s.inv(),
        in_step(s, disk),
        s.status != Status::Recovering,
        applied <= s.commit_number,
    ensures
        ({
            let back = ReplicaModel::<SM>::come_back(
                s.self_id,
                s.config,
                machine,
                applied,
                disk.apply(s.write()),
                nonce,
            );
            &&& back.view_number == s.view_number
            &&& back.last_normal_view == s.last_normal_view
            &&& back.commit_number == s.commit_number
            &&& back.log_start == s.log_start
            &&& back.log == s.log
        }),
{
    reveal(ReplicaModel::restart);
    write_brings_the_disk_up_to_date(s, disk);
}

/// A message that promises something of the sender's durable state waits for
/// the next write to be taken and handed back before it is released; one
/// that does not may leave at once.
pub proof fn promises_wait_for_their_write<SM: StateMachine>(
    s: ReplicaModel<SM>,
    replica_id: ReplicaID,
    message: crate::message::MessageViewFor<SM>,
)
    ensures
        !message.early() ==> {
            let sent = s.send(replica_id, message);
            &&& sent.outbox_early == s.outbox_early
            &&& sent.outbox_ready == s.outbox_ready
            &&& sent.outbox_waiting == s.outbox_waiting
            &&& sent.take_write().outbox_waiting == s.outbox.push((replica_id, message))
            &&& sent.take_write().outbox_ready == s.outbox_ready
        },
        message.early() ==> s.send(replica_id, message).outbox_early == s.outbox_early.push(
            (replica_id, message),
        ),
{
}

/// What is on disk once every write that a replica has handed back in its
/// first `k` steps has landed.
pub open spec fn landed<SM: StateMachine>(
    start: Start<SM>,
    life: Seq<ReplicaModel<SM>>,
    steps: Seq<Step<SM>>,
    k: nat,
) -> PersistentView<SM::Input>
    decreases k,
{
    if k == 0 {
        start.disk()
    } else if steps[k - 1] is Persisted {
        replayed(start, life, steps, (k - 1) as nat)
    } else {
        landed(start, life, steps, (k - 1) as nat)
    }
}

/// Whether `disk` holds what a replica knows to be durable, and that is all
/// it has executed.
spec fn holds_durable<SM: StateMachine>(
    s: ReplicaModel<SM>,
    disk: PersistentView<SM::Input>,
) -> bool {
    &&& executed_durable(s)
    &&& disk.log_start <= s.log_start
    &&& s.outstanding matches Some(outstanding) ==> s.durable <= outstanding.op_number
    &&& forall|op_number: int|
        s.log_start < op_number && op_number <= s.durable_op() ==> disk.has_entry(
            op_number,
            #[trigger] s.entry(op_number),
        )
}

/// A step that marks what it changes, and makes nothing durable, leaves what
/// is durable on disk.
proof fn durable_stays<SM: StateMachine>(
    s: ReplicaModel<SM>,
    t: ReplicaModel<SM>,
    disk: PersistentView<SM::Input>,
)
    requires
        s.inv(),
        t.inv(),
        advances(s, t),
        holds_durable(s, disk),
    ensures
        holds_durable(t, disk),
{
    reveal(advances);
    assert forall|op_number: int|
        t.log_start < op_number && op_number <= t.durable_op() implies disk.has_entry(
        op_number,
        #[trigger] t.entry(op_number),
    ) by {
        assert(t.entry(op_number) == s.entry(op_number));
    }
}

/// A disk in step holds what is durable once its write is handed back.
proof fn durable_lands<SM: StateMachine>(
    s: ReplicaModel<SM>,
    before: PersistentView<SM::Input>,
    disk: PersistentView<SM::Input>,
)
    requires
        s.inv(),
        s.outstanding is Some,
        holds_durable(s, before),
        in_step(s, disk),
    ensures
        holds_durable(s.persisted(), disk),
{
    reveal(ReplicaModel::persisted);
    persisted_advances(s);
    frame_persisted(s);
    let t = s.persisted();
    assert forall|op_number: int|
        t.log_start < op_number && op_number <= t.durable_op() implies disk.has_entry(
        op_number,
        #[trigger] t.entry(op_number),
    ) by {
        assert(t.entry(op_number) == s.entry(op_number));
    }
}

/// What handing a write back does to it.
proof fn frame_persisted<SM: StateMachine>(s: ReplicaModel<SM>)
    requires
        s.outstanding is Some,
    ensures
        s.persisted().outstanding is None,
        s.persisted().log_start == s.log_start,
{
    broadcast use {frame_apply_committed, frame_commit_up_to};

    reveal(ReplicaModel::persisted);
}

/// A disk that a replica came back from holds what is durable.
proof fn restart_holds_durable<SM: StateMachine>(
    id: ReplicaID,
    config: ConfigView,
    start: Start<SM>,
)
    requires
        start.can(id, config),
    ensures
        holds_durable(start.replica(id, config), start.disk()),
{
    broadcast use frame_apply_committed;

    match start {
        Start::Restart { machine, applied, state, nonce } => {
            restart_keeps::<SM>(id, config, machine, applied, state, nonce);
            let back = come_back_executed::<SM>(id, config, machine, applied, state, nonce);
            assert forall|op_number: int|
                back.log_start < op_number && op_number <= back.durable_op() implies state.has_entry(
                op_number,
                #[trigger] back.entry(op_number),
            ) by {}
            durable_stays(
                back,
                ReplicaModel::<SM>::restart(id, config, machine, applied, state, nonce),
                state,
            );
        },
        _ => {},
    }
}

/// Every op that a replica has executed, and that its log still holds, is on
/// its disk, in a write that has landed.
pub proof fn executed_ops_are_on_disk<SM: StateMachine>(
    id: ReplicaID,
    config: ConfigView,
    start: Start<SM>,
    life: Seq<ReplicaModel<SM>>,
    steps: Seq<Step<SM>>,
    k: nat,
)
    requires
        is_life(id, config, start, life, steps),
        k < life.len(),
    ensures
        forall|op_number: int|
            life[k as int].log_start < op_number && op_number <= life[k as int].applied ==> landed(
                start,
                life,
                steps,
                k,
            ).has_entry(op_number, #[trigger] life[k as int].entry(op_number)),
{
    life_holds_durable(id, config, start, life, steps, k);
}

proof fn life_holds_durable<SM: StateMachine>(
    id: ReplicaID,
    config: ConfigView,
    start: Start<SM>,
    life: Seq<ReplicaModel<SM>>,
    steps: Seq<Step<SM>>,
    k: nat,
)
    requires
        is_life(id, config, start, life, steps),
        k < life.len(),
    ensures
        holds_durable(life[k as int], landed(start, life, steps, k)),
    decreases k,
{
    if k == 0 {
        restart_holds_durable(id, config, start);
    } else {
        let j = (k - 1) as nat;
        let s = life[j as int];
        let step = steps[j as int];
        life_holds_durable(id, config, start, life, steps, j);
        replaying_the_writes_rebuilds_the_state(id, config, start, life, steps, j);
        life_keeps(id, config, start, life, steps, j as int);
        life_keeps(id, config, start, life, steps, k as int);
        assert(s.can_step(step));
        let disk = landed(start, life, steps, j);
        if step is Message || step is Idle || step is Compact {
            step_keeps(s, step);
            durable_stays(s, s.stepped(step), disk);
        } else {
            owner_steps(s, step);
            let t = s.stepped(step);
            if step is Persisted {
                durable_lands(s, disk, replayed(start, life, steps, j));
            } else {
                assert forall|op_number: int| #[trigger]
                    t.entry(op_number) == s.entry(op_number) by {}
            }
        }
    }
}

} // verus!
