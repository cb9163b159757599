use vstd::prelude::*;
use super::branches::branch_ok;
use super::changes::{
    follows_on_do_view_change, follows_on_start_view, follows_on_start_view_change,
};
use super::disks::{
    ack_left, acks_left, branch_refl, node_asks, node_lands, node_ok, node_recovers, node_refreshes,
    node_restarts, node_sends, node_shows, node_stays, node_steps, node_takes_write, Trail,
};
use super::history::{committed_length, History};
use super::idle::{follows_on_idle, keeps_compact};
use super::lifecycle::init_ok;
use super::moves::{ask_grows, grows_refl, grows_trans};
use super::normal::{
    bound, follows_now, follows_on_commit, follows_on_confirm_view, follows_on_confirm_view_ok,
    follows_on_prepare, follows_on_prepare_ok, follows_on_query, follows_on_register,
    follows_on_request, quiet,
};
use super::recovery::{follows_on_recovery, follows_on_recovery_response};
use super::rests::{can_come_back, committing, held_now, rests_now};
use super::run::{is_run, shows, tells, Action, Cluster, Stored};
use super::safety::{
    asker_ok, asks_ok, change_ok, follows, leads_ok, log_ok, mail_ok, message_ok, outbox_ok,
    patient, replica_ok,
};
use super::stays::message_ok_stays;
use super::transfer::{
    follows_on_get_chunk, follows_on_get_state, follows_on_new_chunk, follows_on_new_state,
};
use crate::config::ConfigView;
use crate::ids::{ReplicaID, ViewNumber};
use crate::log::{LogEntry, PersistentView};
use crate::message::{MessageView, MessageViewFor};
use crate::replica::keeps::advances;
use crate::replica::model::ReplicaModel;
use crate::replica::outboxes::group_posts;
use crate::replica::parts::{DoViewChangeView, Status};
use crate::replica::room::{
    can_take, fresh_start, room_on_idle, room_on_message, room_persisted, room_restart,
};
use crate::replica::runs::group_executes;
use crate::replica::sessions::lawful;
use crate::replica::steps::{compact_advances, idle_advances, message_advances};
use crate::state_machine::StateMachine;

verus! {

/// The history that everybody in a cluster may know, and what each replica
/// has come to on its own.
#[verifier::ext_equal]
pub struct Account<Op> {
    pub history: History<Op>,
    pub trails: Seq<Trail<Op>>,
}

/// Whether what `message` says to have left its sender has.
pub open spec fn has_left<SM: StateMachine>(
    h: History<SM::Input>,
    message: MessageViewFor<SM>,
) -> bool {
    &&& ack_left::<SM>(h, message)
    &&& message matches MessageView::ConfirmView { view_number, round } ==> round <= h.asked_of(
        view_number,
    )
}

/// What holds of the messages sent.
pub open spec fn sent_ok<SM: StateMachine>(
    h: History<SM::Input>,
    sent: Seq<(ReplicaID, MessageViewFor<SM>)>,
) -> bool {
    forall|k: int|
        0 <= k < sent.len() ==> message_ok::<SM>(h, (#[trigger] sent[k]).0, sent[k].1)
            && has_left::<SM>(h, sent[k].1)
}

impl<SM: StateMachine> Cluster<SM> {
    /// Whether replica `i` and its disk are what `account` says.
    pub open spec fn has_node(self, account: Account<SM::Input>, i: ReplicaID) -> bool {
        node_ok(
            account.history,
            i,
            self.replicas[i as int],
            self.disks[i as int],
            account.trails[i as int],
        )
    }

    /// Whether the cluster is what `account` says it came to.
    pub open spec fn bears_out(self, account: Account<SM::Input>) -> bool {
        let h = account.history;
        &&& h.wf()
        &&& h.config == self.config
        &&& self.replicas.len() == self.config.size()
        &&& self.disks.len() == self.config.size()
        &&& account.trails.len() == self.config.size()
        &&& forall|i: ReplicaID| i < self.config.size() ==> #[trigger] self.has_node(account, i)
        &&& sent_ok::<SM>(h, self.sent)
        &&& h.used.subset_of(self.nonces)
        &&& forall|i: int| 0 <= i < self.replicas.len() ==> (#[trigger] self.replicas[i]).fits
    }
}

/// A cluster that has done nothing bears out a history in which nothing has
/// happened.
pub proof fn nothing_has_happened<SM: StateMachine>(
    config: ConfigView,
    machines: Seq<SM::State>,
    orderly: bool,
) -> (account: Account<SM::Input>)
    requires
        config.is_cluster(),
    ensures
        Cluster::<SM>::init(config, machines).bears_out(account),
        account.history.moment is None,
        account.history.orderly == orderly,
{
    let none = Seq::<LogEntry<SM::Input>>::empty();
    let h = History {
        config,
        views: Map::empty().insert(0, none),
        accepted: Map::empty(),
        acknowledged: Map::empty(),
        at: Seq::new(config.size(), |i: int| 0usize),
        logs: Seq::new(config.size(), |i: int| none),
        reported: Map::empty(),
        recovering: Seq::new(config.size(), |i: int| None),
        used: Set::empty(),
        declared: Map::empty(),
        rounds: Map::empty(),
        asked: Map::empty(),
        moment: None,
        orderly,
    };
    let trail = Trail { log: none, out: none, taken: h, ahead: h };
    let account = Account { history: h, trails: Seq::new(config.size(), |i: int| trail) };
    let cluster = Cluster::<SM>::init(config, machines);
    assert(h.complete(none, 0)) by {
        reveal(History::complete);
        reveal(lawful);
    }
    assert(h.wf()) by {
        assert forall|v: ViewNumber| #[trigger] h.started(v) implies v == 0 by {}
    }
    assert(none.skip(0) =~= none);
    assert(none.take(0) =~= none);
    assert forall|i: ReplicaID| i < config.size() implies #[trigger] cluster.has_node(
        account,
        i,
    ) by {
        let s = ReplicaModel::<SM>::init(i, config, machines[i as int]);
        init_ok::<SM>(h, i, config, machines[i as int]);
        assert(log_ok(h, i, s)) by {
            reveal(log_ok);
            reveal(History::committed);
        }
        assert(change_ok(h, i, s)) by {
            reveal(change_ok);
        }
        assert(leads_ok(h, i, s)) by {
            reveal(leads_ok);
        }
        rests_now(h, i, s);
        assert(s.persistent_state() == PersistentView::<SM::Input>::empty());
        branch_refl(h, i, s.persistent_state());
        held_now(h, i, s.persistent_state());
        assert(committing(s.persistent_state(), 0) == s.persistent_state());
        assert(node_ok(h, i, s, cluster.disks[i as int], trail)) by {
            reveal(node_ok);
        }
    }
    account
}

/// What a message makes of a replica follows.
proof fn follows_on_message<SM: StateMachine>(
    h: History<SM::Input>,
    i: ReplicaID,
    s: ReplicaModel<SM>,
    message: MessageViewFor<SM>,
    chunk: (SM::Chunk, bool),
)
    requires
        h.wf(),
        replica_ok(h, i, s),
        s.inv(),
        message_ok::<SM>(h, i, message),
        has_left::<SM>(h, message),
        h.orderly && s.leads() ==> s.knows(h.logs[i as int]),
        s.on_message(message, chunk).fits,
    ensures
        follows(h, i, s.on_message(message, chunk)),
{
    if s.ignores(message) {
        follows_now(h, i, s);
    } else {
        reveal(ReplicaModel::handle);
        match message {
            MessageView::Register { client_id } => {
                follows_on_register(h, i, s, client_id);
            },
            MessageView::Request { client_id, session, request_number, answered, op } => {
                follows_on_request(h, i, s, client_id, session, request_number, answered, op);
            },
            MessageView::Query { client_id, query_number, query } => {
                follows_on_query(h, i, s, client_id, query_number, query);
            },
            MessageView::ConfirmView { view_number, round } => {
                follows_on_confirm_view(h, i, s, view_number, round);
            },
            MessageView::ConfirmViewOk { view_number, round, replica_id } => {
                follows_on_confirm_view_ok(h, i, s, view_number, round, replica_id);
            },
            MessageView::Prepare { view_number, op_number, entry, commit_number } => {
                follows_on_prepare(h, i, s, view_number, op_number, entry, commit_number);
            },
            MessageView::PrepareOk { view_number, op_number, replica_id } => {
                follows_on_prepare_ok(h, i, s, view_number, op_number, replica_id);
            },
            MessageView::Commit { view_number, commit_number } => {
                follows_on_commit(h, i, s, view_number, commit_number);
            },
            MessageView::GetState { replica_id, view_number, op_number } => {
                follows_on_get_state(h, i, s, replica_id, view_number, op_number);
            },
            MessageView::NewState { replica_id, view_number, segment, commit_number } => {
                follows_on_new_state(h, i, s, replica_id, view_number, segment, commit_number);
            },
            MessageView::GetChunk { replica_id, op_number, index } => {
                follows_on_get_chunk(h, i, s, replica_id, op_number, index, chunk.0, chunk.1);
            },
            MessageView::NewChunk { replica_id, op_number, index, chunk, last } => {
                follows_on_new_chunk(h, i, s, replica_id, op_number, index, chunk, last);
            },
            MessageView::StartViewChange { view_number, replica_id } => {
                follows_on_start_view_change(h, i, s, view_number, replica_id);
            },
            MessageView::DoViewChange {
                view_number,
                replica_id,
                last_normal_view,
                segment,
                commit_number,
            } => {
                follows_on_do_view_change(
                    h,
                    i,
                    s,
                    view_number,
                    replica_id,
                    DoViewChangeView { last_normal_view, segment, commit_number },
                );
            },
            MessageView::StartView { view_number, segment, commit_number } => {
                follows_on_start_view(h, i, s, view_number, segment, commit_number);
            },
            MessageView::Recovery { replica_id, nonce, view_number } => {
                follows_on_recovery(h, i, s, replica_id, nonce, view_number);
            },
            MessageView::RecoveryResponse { view_number, nonce, replica_id, state } => {
                follows_on_recovery_response(h, i, s, view_number, nonce, replica_id, state);
            },
        }
    }
}

/// Whether the replica that steps, its disk and what is sent are sound in
/// what the history came to.
spec fn steps_into<SM: StateMachine>(
    c: Cluster<SM>,
    h: History<SM::Input>,
    action: Action<SM>,
    g: History<SM::Input>,
    trail: Trail<SM::Input>,
) -> bool {
    let i = action.replica_id(c);
    &&& h.grew(g, i)
    &&& g.moment == h.moment
    &&& g.wf()
    &&& g.used.subset_of(c.next(action).nonces)
    &&& node_ok(g, i, c.stepped(action), c.written(action), trail)
    &&& sent_ok::<SM>(g, c.sent_after(action))
}

/// What holds of the messages sent holds in what the history grows into, as
/// long as their senders hold what they have acknowledged.
proof fn sent_stays<SM: StateMachine>(
    h: History<SM::Input>,
    g: History<SM::Input>,
    i: ReplicaID,
    sent: Seq<(ReplicaID, MessageViewFor<SM>)>,
)
    requires
        h.wf(),
        h.grew(g, i),
        g.wf(),
        g.moment == h.moment,
        sent_ok::<SM>(h, sent),
    ensures
        sent_ok::<SM>(g, sent),
{
    assert forall|k: int| 0 <= k < sent.len() implies message_ok::<SM>(
        g,
        (#[trigger] sent[k]).0,
        sent[k].1,
    ) && has_left::<SM>(g, sent[k].1) by {
        sent_message_stays::<SM>(h, g, i, sent[k].0, sent[k].1);
    }
}

proof fn sent_message_stays<SM: StateMachine>(
    h: History<SM::Input>,
    g: History<SM::Input>,
    i: ReplicaID,
    to: ReplicaID,
    message: MessageViewFor<SM>,
)
    requires
        h.wf(),
        h.grew(g, i),
        g.wf(),
        g.moment == h.moment,
        message_ok::<SM>(h, to, message),
        has_left::<SM>(h, message),
    ensures
        message_ok::<SM>(g, to, message),
        has_left::<SM>(g, message),
{
    match message {
        MessageView::PrepareOk { view_number, op_number, replica_id } => {
            assert(g.ack(replica_id, view_number) >= h.ack(replica_id, view_number));
            assert(g.ack(replica_id, view_number) <= g.acc(replica_id, view_number));
        },
        MessageView::ConfirmView { view_number, round } => {
            assert(g.asked_of(view_number) >= h.asked_of(view_number));
        },
        _ => {},
    }
    message_ok_stays::<SM>(h, g, i, to, message);
}

/// What a replica has on its own.
pub proof fn node_is<SM: StateMachine>(
    h: History<SM::Input>,
    i: ReplicaID,
    s: ReplicaModel<SM>,
    disk: Stored<SM::Input>,
    trail: Trail<SM::Input>,
)
    requires
        node_ok(h, i, s, disk, trail),
    ensures
        branch_ok(h, trail.ahead, i),
        replica_ok(trail.ahead, i, s),
        s.inv(),
        s.outstanding is Some ==> disk.out is Some,
        mail_ok::<SM>(h, s.outbox_ready),
        acks_left::<SM>(h, s.outbox_ready),
{
    reveal(node_ok);
}

/// A step in memory.
proof fn memory_steps<SM: StateMachine>(
    c: Cluster<SM>,
    account: Account<SM::Input>,
    action: Action<SM>,
) -> (to: (History<SM::Input>, Trail<SM::Input>))
    requires
        c.bears_out(account),
        action.replica_id(c) < c.config.size(),
        follows(
            account.trails[action.replica_id(c) as int].ahead,
            action.replica_id(c),
            c.stepped(action),
        ),
        advances(c.replicas[action.replica_id(c) as int], c.stepped(action)),
        c.stepped(action).inv(),
        c.written(action) == c.disks[action.replica_id(c) as int].refreshed(
            c.stepped(action).persistent_state(),
        ),
        c.sent_after(action) == c.sent,
        c.nonces.subset_of(c.next(action).nonces),
    ensures
        steps_into(c, account.history, action, to.0, to.1),
{
    let i = action.replica_id(c);
    let h = account.history;
    assert(c.has_node(account, i));
    let trail = node_steps(
        h,
        i,
        c.replicas[i as int],
        c.stepped(action),
        c.disks[i as int],
        account.trails[i as int],
    );
    let to = node_refreshes(h, i, c.stepped(action), c.disks[i as int], trail);
    sent_stays::<SM>(h, to.0, i, c.sent);
    to
}

/// A message that was sent is sound where the replica is.
proof fn message_reaches<SM: StateMachine>(
    h: History<SM::Input>,
    g: History<SM::Input>,
    i: ReplicaID,
    to: ReplicaID,
    message: MessageViewFor<SM>,
)
    requires
        h.wf(),
        branch_ok(h, g, i),
        message_ok::<SM>(h, to, message),
        has_left::<SM>(h, message),
    ensures
        message_ok::<SM>(g, to, message),
        has_left::<SM>(g, message),
{
    message_ok_stays::<SM>(h, g, i, to, message);
    match message {
        MessageView::PrepareOk { view_number, op_number, replica_id } => {
            assert(g.ack(replica_id, view_number) == h.ack(replica_id, view_number));
        },
        MessageView::ConfirmView { view_number, round } => {
            assert(g.asked_of(view_number) >= h.asked_of(view_number));
        },
        _ => {},
    }
}

/// What a message that arrives makes of its replica.
proof fn message_arrives<SM: StateMachine>(c: Cluster<SM>, action: Action<SM>)
    requires
        c.can(action),
        c.stepped(action).fits,
    ensures
        action matches Action::Client { to, message } ==> {
            let s = c.replicas[to as int];
            &&& to < c.config.size()
            &&& message is Register || message is Request || message is Query
            &&& c.stepped(action) == s.on_message(message, arbitrary())
            &&& s.on_message(message, arbitrary()).fits
        },
        action matches Action::Deliver { index, chunk } ==> {
            let s = c.replicas[c.sent[index].0 as int];
            &&& c.sent[index].0 < c.config.size()
            &&& 0 <= index < c.sent.len()
            &&& c.stepped(action) == s.on_message(c.sent[index].1, chunk)
            &&& s.on_message(c.sent[index].1, chunk).fits
        },
{
    reveal(Cluster::can);
    reveal(Cluster::stepped);
}

/// What an idle period makes of a replica.
proof fn period_passes<SM: StateMachine>(c: Cluster<SM>, action: Action<SM>)
    requires
        c.can(action),
        c.stepped(action).fits,
    ensures
        action matches Action::Idle { id } ==> {
            let s = c.replicas[id as int];
            id < c.config.size() && c.stepped(action) == s.on_idle() && s.on_idle().fits
        },
{
    reveal(Cluster::can);
    reveal(Cluster::stepped);
}

/// What a write that is taken or handed back makes of its replica.
proof fn write_moves<SM: StateMachine>(c: Cluster<SM>, action: Action<SM>)
    requires
        c.can(action),
    ensures
        action matches Action::TakeWrite { id, skipped } ==> {
            let s = c.replicas[id as int];
            &&& id < c.config.size()
            &&& s.outstanding is None
            &&& skipped ==> !s.write().sync
            &&& c.stepped(action) == s.take_write()
        },
        action matches Action::Persisted { id } ==> {
            let s = c.replicas[id as int];
            &&& id < c.config.size()
            &&& s.outstanding is Some
            &&& c.stepped(action) == s.persisted()
        },
{
    reveal(Cluster::can);
    reveal(Cluster::stepped);
}

/// What a crash makes of a replica.
#[verifier::rlimit(40)]
pub proof fn power_is_lost<SM: StateMachine>(c: Cluster<SM>, action: Action<SM>)
    requires
        c.can(action),
        c.stepped(action).fits,
    ensures
        action matches Action::Restart { id, landed, machine, applied, nonce } ==> {
            let kept = c.disks[id as int].survivor(landed);
            let back = ReplicaModel::<SM>::restart(
                id,
                c.config,
                machine,
                applied,
                kept.state,
                nonce,
            );
            &&& id < c.config.size()
            &&& can_come_back(
                kept.shown,
                kept.state,
                c.replicas[id as int].commit_number,
                applied,
            )
            &&& kept.state.recovering ==> !c.nonces.contains((id, nonce))
            &&& ReplicaModel::<SM>::can_restart(machine, applied, kept.state)
            &&& back.fits
            &&& c.stepped(action) == back
        },
{
    reveal(Cluster::can);
    reveal(Cluster::stepped);
}

proof fn message_steps<SM: StateMachine>(
    c: Cluster<SM>,
    account: Account<SM::Input>,
    action: Action<SM>,
) -> (to: (History<SM::Input>, Trail<SM::Input>))
    requires
        c.bears_out(account),
        c.can(action),
        c.stepped(action).fits,
        action is Client || action is Deliver,
        knows_its_log(c, account, action.replica_id(c)),
    ensures
        steps_into(c, account.history, action, to.0, to.1),
{
    message_arrives(c, action);
    let h = account.history;
    let i = action.replica_id(c);
    let s = c.replicas[i as int];
    let g = account.trails[i as int].ahead;
    assert(c.has_node(account, i));
    node_is(h, i, s, c.disks[i as int], account.trails[i as int]);
    match action {
        Action::Client { to, message } => {
            follows_on_message(g, i, s, message, arbitrary());
            message_advances(s, message, arbitrary());
        },
        Action::Deliver { index, chunk } => {
            let message = c.sent[index].1;
            assert(message_ok::<SM>(h, c.sent[index].0, c.sent[index].1));
            assert(has_left::<SM>(h, c.sent[index].1));
            message_reaches::<SM>(h, g, i, c.sent[index].0, message);
            follows_on_message(g, i, s, message, chunk);
            message_advances(s, message, chunk);
        },
        _ => {},
    }
    memory_steps(c, account, action)
}

#[verifier::rlimit(40)]
proof fn idle_steps<SM: StateMachine>(
    c: Cluster<SM>,
    account: Account<SM::Input>,
    action: Action<SM>,
) -> (to: (History<SM::Input>, Trail<SM::Input>))
    requires
        c.bears_out(account),
        c.can(action),
        c.stepped(action).fits,
        action is Idle,
    ensures
        steps_into(c, account.history, action, to.0, to.1),
{
    period_passes(c, action);
    let i = action.replica_id(c);
    let s = c.replicas[i as int];
    assert(c.has_node(account, i));
    node_is(account.history, i, s, c.disks[i as int], account.trails[i as int]);
    follows_on_idle(account.trails[i as int].ahead, i, s);
    idle_advances(s);
    memory_steps(c, account, action)
}

proof fn log_is_compacted<SM: StateMachine>(
    c: Cluster<SM>,
    account: Account<SM::Input>,
    action: Action<SM>,
) -> (to: (History<SM::Input>, Trail<SM::Input>))
    requires
        c.bears_out(account),
        c.can(action),
        action is Compact,
    ensures
        steps_into(c, account.history, action, to.0, to.1),
{
    reveal(Cluster::can);
    reveal(Cluster::stepped);
    let i = action.replica_id(c);
    let s = c.replicas[i as int];
    let g = account.trails[i as int].ahead;
    assert(c.has_node(account, i));
    node_is(account.history, i, s, c.disks[i as int], account.trails[i as int]);
    keeps_compact(g, i, s, action->op_number);
    compact_advances(s, action->op_number);
    follows_now(g, i, c.stepped(action));
    memory_steps(c, account, action)
}

/// A replica whose replies have left it is sound.
proof fn replied<SM: StateMachine>(
    h: History<SM::Input>,
    i: ReplicaID,
    s: ReplicaModel<SM>,
    t: ReplicaModel<SM>,
)
    requires
        h.wf(),
        replica_ok(h, i, s),
        s.inv(),
        t == (ReplicaModel { replies: t.replies, ..s }),
    ensures
        follows(h, i, t),
        t.inv(),
        advances(s, t),
{
    broadcast use {group_posts, group_executes};

    quiet(h, i, s, t);
    follows_now(h, i, t);
    reveal(advances);
}

proof fn replies_leave<SM: StateMachine>(
    c: Cluster<SM>,
    account: Account<SM::Input>,
    action: Action<SM>,
) -> (to: (History<SM::Input>, Trail<SM::Input>))
    requires
        c.bears_out(account),
        c.can(action),
        action is Reply,
    ensures
        steps_into(c, account.history, action, to.0, to.1),
{
    reveal(Cluster::can);
    reveal(Cluster::stepped);
    let i = action.replica_id(c);
    let s = c.replicas[i as int];
    assert(c.has_node(account, i));
    node_is(account.history, i, s, c.disks[i as int], account.trails[i as int]);
    replied(account.trails[i as int].ahead, i, s, c.stepped(action));
    memory_steps(c, account, action)
}

proof fn write_is_taken<SM: StateMachine>(
    c: Cluster<SM>,
    account: Account<SM::Input>,
    action: Action<SM>,
) -> (to: (History<SM::Input>, Trail<SM::Input>))
    requires
        c.bears_out(account),
        c.can(action),
        action is TakeWrite,
    ensures
        steps_into(c, account.history, action, to.0, to.1),
{
    write_moves(c, action);
    let h = account.history;
    let i = action.replica_id(c);
    assert(c.has_node(account, i));
    grows_refl(h, i);
    let trail = node_takes_write(
        h,
        i,
        c.replicas[i as int],
        c.disks[i as int],
        account.trails[i as int],
        action->skipped,
    );
    (h, trail)
}

proof fn write_lands<SM: StateMachine>(
    c: Cluster<SM>,
    account: Account<SM::Input>,
    action: Action<SM>,
) -> (to: (History<SM::Input>, Trail<SM::Input>))
    requires
        c.bears_out(account),
        c.can(action),
        action is Persisted,
    ensures
        steps_into(c, account.history, action, to.0, to.1),
{
    write_moves(c, action);
    let h = account.history;
    let i = action.replica_id(c);
    assert(c.has_node(account, i));
    let (g, trail) = node_lands(
        h,
        i,
        c.replicas[i as int],
        c.disks[i as int],
        account.trails[i as int],
    );
    let disk = Stored { kept: c.disks[i as int].out->0, out: None };
    let to = node_refreshes(g, i, c.stepped(action), disk, trail);
    grows_trans(h, g, to.0, i);
    sent_stays::<SM>(h, to.0, i, c.sent);
    to
}

/// A message that leaves a replica is sound, and says what has left.
proof fn leaving_message_ok<SM: StateMachine>(
    h: History<SM::Input>,
    i: ReplicaID,
    to: ReplicaID,
    message: MessageViewFor<SM>,
)
    requires
        h.wf(),
        i < h.config.size(),
        message_ok::<SM>(h, to, message),
        ack_left::<SM>(h, message),
        asker_ok::<SM>(h.config, i, message),
    ensures
        message_ok::<SM>(h.ask(i), to, message),
        has_left::<SM>(h.ask(i), message),
{
    let g = h.ask(i);
    ask_grows(h, i);
    message_ok_stays::<SM>(h, g, i, to, message);
    match message {
        MessageView::PrepareOk { view_number, op_number, replica_id } => {
            assert(g.ack(replica_id, view_number) == h.ack(replica_id, view_number));
        },
        _ => {},
    }
}

/// The messages of one of a replica's boxes are sound as they leave it.
proof fn leaving_ok<SM: StateMachine>(
    h: History<SM::Input>,
    i: ReplicaID,
    mail: Seq<(ReplicaID, MessageViewFor<SM>)>,
)
    requires
        h.wf(),
        i < h.config.size(),
        mail_ok::<SM>(h, mail),
        asks_ok::<SM>(h.config, i, mail),
        acks_left::<SM>(h, mail),
    ensures
        sent_ok::<SM>(h.ask(i), mail),
{
    assert forall|k: int| 0 <= k < mail.len() implies message_ok::<SM>(
        h.ask(i),
        (#[trigger] mail[k]).0,
        mail[k].1,
    ) && has_left::<SM>(h.ask(i), mail[k].1) by {
        assert(message_ok::<SM>(h, mail[k].0, mail[k].1));
        assert(asker_ok::<SM>(h.config, i, mail[k].1));
        assert(ack_left::<SM>(h, mail[k].1));
        leaving_message_ok::<SM>(h, i, mail[k].0, mail[k].1);
    }
}

proof fn all_sent_ok<SM: StateMachine>(
    h: History<SM::Input>,
    a: Seq<(ReplicaID, MessageViewFor<SM>)>,
    b: Seq<(ReplicaID, MessageViewFor<SM>)>,
)
    requires
        sent_ok::<SM>(h, a),
        sent_ok::<SM>(h, b),
    ensures
        sent_ok::<SM>(h, a + b),
{
    let all = a + b;
    assert forall|k: int| 0 <= k < all.len() implies message_ok::<SM>(
        h,
        (#[trigger] all[k]).0,
        all[k].1,
    ) && has_left::<SM>(h, all[k].1) by {
        if k < a.len() {
            assert(all[k] == a[k]);
        } else {
            assert(all[k] == b[k - a.len()]);
        }
    }
}

/// A message that leaves early and tells nothing of its sender is sound
/// whether or not the others know what the sender has come to.
proof fn untold_message_ok<SM: StateMachine>(
    h: History<SM::Input>,
    g: History<SM::Input>,
    i: ReplicaID,
    to: ReplicaID,
    message: MessageViewFor<SM>,
)
    requires
        h.wf(),
        branch_ok(h, g, i),
        message.early(),
        !tells::<SM>(h.config, i, message),
        asker_ok::<SM>(h.config, i, message),
        message_ok::<SM>(g, to, message),
    ensures
        message_ok::<SM>(h, to, message),
        has_left::<SM>(h, message),
{
    match message {
        MessageView::ConfirmViewOk { view_number, round, replica_id } => {
            assert(g.asked_of(view_number) == h.asked_of(view_number));
        },
        MessageView::GetState { replica_id, view_number, op_number } => {
            assert(g.log_of(view_number) == h.log_of(view_number));
        },
        _ => {},
    }
}

/// The mail of a replica leaves it, and tells nothing of it.
proof fn mail_leaves_untold<SM: StateMachine>(
    c: Cluster<SM>,
    account: Account<SM::Input>,
    action: Action<SM>,
) -> (to: (History<SM::Input>, Trail<SM::Input>))
    requires
        c.bears_out(account),
        c.can(action),
        action is SendEarly || action is Send,
        !shows::<SM>(
            c.config,
            action.replica_id(c),
            c.replicas[action.replica_id(c) as int].outbox_early,
        ),
    ensures
        steps_into(c, account.history, action, to.0, to.1),
{
    reveal(Cluster::can);
    reveal(Cluster::stepped);
    let h = account.history;
    let i = action.replica_id(c);
    let s = c.replicas[i as int];
    let trail = account.trails[i as int];
    assert(c.has_node(account, i));
    node_is(h, i, s, c.disks[i as int], trail);
    node_sends(h, i, s, c.stepped(action), c.disks[i as int], trail);
    grows_refl(h, i);
    let early = s.outbox_early;
    assert(s.self_id == i && s.config == h.config) by {
        reveal(log_ok);
    }
    assert(asks_ok::<SM>(h.config, i, early) && mail_ok::<SM>(trail.ahead, early)
        && patient::<SM>(s.outbox_ready)) by {
        reveal(outbox_ok);
    }
    assert(sent_ok::<SM>(h, early)) by {
        assert forall|k: int| 0 <= k < early.len() implies message_ok::<SM>(
            h,
            (#[trigger] early[k]).0,
            early[k].1,
        ) && has_left::<SM>(h, early[k].1) by {
            assert(early[k].1.early()) by {
                reveal(outbox_ok);
            }
            assert(!tells::<SM>(h.config, i, early[k].1));
            assert(asker_ok::<SM>(h.config, i, early[k].1));
            assert(message_ok::<SM>(trail.ahead, early[k].0, early[k].1));
            untold_message_ok::<SM>(h, trail.ahead, i, early[k].0, early[k].1);
        }
    }
    assert(sent_ok::<SM>(h, s.outbox_ready)) by {
        assert forall|k: int| 0 <= k < s.outbox_ready.len() implies message_ok::<SM>(
            h,
            (#[trigger] s.outbox_ready[k]).0,
            s.outbox_ready[k].1,
        ) && has_left::<SM>(h, s.outbox_ready[k].1) by {
            assert(message_ok::<SM>(h, s.outbox_ready[k].0, s.outbox_ready[k].1));
            assert(ack_left::<SM>(h, s.outbox_ready[k].1));
            assert(!s.outbox_ready[k].1.early());
        }
    }
    all_sent_ok::<SM>(h, early, s.outbox_ready);
    all_sent_ok::<SM>(h, c.sent, early);
    all_sent_ok::<SM>(h, c.sent, early + s.outbox_ready);
    (h, trail)
}

/// The mail of a replica leaves it, and tells of it.
proof fn mail_leaves_telling<SM: StateMachine>(
    c: Cluster<SM>,
    account: Account<SM::Input>,
    action: Action<SM>,
) -> (to: (History<SM::Input>, Trail<SM::Input>))
    requires
        c.bears_out(account),
        c.can(action),
        action is SendEarly || action is Send,
        shows::<SM>(
            c.config,
            action.replica_id(c),
            c.replicas[action.replica_id(c) as int].outbox_early,
        ),
    ensures
        steps_into(c, account.history, action, to.0, to.1),
{
    reveal(Cluster::can);
    reveal(Cluster::stepped);
    let h = account.history;
    let i = action.replica_id(c);
    let s = c.replicas[i as int];
    let t = c.stepped(action);
    let trail = account.trails[i as int];
    assert(c.has_node(account, i));
    let g = trail.ahead;
    let shown = Trail { taken: g, ..trail };
    let disk = c.disks[i as int].showing(s.persistent_state());
    node_shows(h, i, s, c.disks[i as int], trail);
    node_is(g, i, s, disk, shown);
    node_sends(g, i, s, t, disk, shown);
    node_asks(g, i, t, disk, shown);
    let f = g.ask(i);
    grows_trans(h, g, f, i);
    let early = s.outbox_early;
    assert(i < g.config.size() && s.self_id == i && s.config == g.config) by {
        reveal(log_ok);
    }
    assert(asks_ok::<SM>(g.config, i, early) && mail_ok::<SM>(g, early) && asks_ok::<SM>(
        g.config,
        i,
        s.outbox_ready,
    ) && acks_left::<SM>(g, early)) by {
        reveal(outbox_ok);
        assert forall|k: int| 0 <= k < early.len() implies ack_left::<SM>(
            g,
            (#[trigger] early[k]).1,
        ) by {
            assert(early[k].1.early());
        }
    }
    leaving_ok::<SM>(g, i, early);
    leaving_ok::<SM>(g, i, s.outbox_ready);
    sent_stays::<SM>(h, f, i, c.sent);
    all_sent_ok::<SM>(f, early, s.outbox_ready);
    all_sent_ok::<SM>(f, c.sent, early);
    all_sent_ok::<SM>(f, c.sent, early + s.outbox_ready);
    (f, Trail { taken: f, ahead: f, ..trail })
}

proof fn replica_restarts<SM: StateMachine>(
    c: Cluster<SM>,
    account: Account<SM::Input>,
    action: Action<SM>,
) -> (to: (History<SM::Input>, Trail<SM::Input>))
    requires
        c.bears_out(account),
        c.can(action),
        c.stepped(action).fits,
        action is Restart,
    ensures
        steps_into(c, account.history, action, to.0, to.1),
{
    power_is_lost(c, action);
    let h = account.history;
    let i = action.replica_id(c);
    let s = c.replicas[i as int];
    let disk = c.disks[i as int];
    let trail = account.trails[i as int];
    assert(c.has_node(account, i));
    let (landed, machine, applied, nonce) = (
        action->landed,
        action->Restart_machine,
        action->applied,
        action->Restart_nonce,
    );
    let to = node_restarts(h, i, s, disk, trail, landed, machine, applied, nonce);
    sent_stays::<SM>(h, to.0, i, c.sent);
    assert(to.0.used.subset_of(c.next(action).nonces));
    to
}

proof fn replica_recovers<SM: StateMachine>(
    c: Cluster<SM>,
    account: Account<SM::Input>,
    action: Action<SM>,
) -> (to: (History<SM::Input>, Trail<SM::Input>))
    requires
        c.bears_out(account),
        c.can(action),
        action is Recover,
    ensures
        steps_into(c, account.history, action, to.0, to.1),
{
    reveal(Cluster::can);
    reveal(Cluster::stepped);
    let h = account.history;
    let i = action.replica_id(c);
    assert(c.has_node(account, i));
    let to = node_recovers(
        h,
        i,
        c.replicas[i as int],
        c.disks[i as int],
        account.trails[i as int],
        action->Recover_machine,
        action->view_number,
        action->Recover_nonce,
    );
    sent_stays::<SM>(h, to.0, i, c.sent);
    assert(to.0.used.subset_of(c.next(action).nonces));
    to
}

/// Whether replica `i`, if it leads its view, knows the log that it has, as
/// far as the primaries are said to append in order.
pub open spec fn knows_its_log<SM: StateMachine>(
    c: Cluster<SM>,
    account: Account<SM::Input>,
    i: ReplicaID,
) -> bool {
    account.history.orderly && c.replicas[i as int].leads() ==> c.replicas[i as int].knows(
        account.trails[i as int].ahead.logs[i as int],
    )
}

/// An action is of a replica of the cluster.
pub proof fn can_step<SM: StateMachine>(c: Cluster<SM>, action: Action<SM>)
    requires
        c.can(action),
    ensures
        action.replica_id(c) < c.config.size(),
{
    reveal(Cluster::can);
}

/// What an action that there is room for makes of a replica fits.
#[verifier::rlimit(40)]
pub proof fn has_room<SM: StateMachine>(
    c: Cluster<SM>,
    account: Account<SM::Input>,
    action: Action<SM>,
)
    requires
        c.bears_out(account),
        c.can(action),
    ensures
        c.stepped(action).fits,
{
    can_step(c, action);
    let h = account.history;
    let i = action.replica_id(c);
    let s = c.replicas[i as int];
    let g = account.trails[i as int].ahead;
    assert(c.has_node(account, i));
    node_is(h, i, s, c.disks[i as int], account.trails[i as int]);
    assert(s.fits);
    assert(s.level() && s.config == h.config) by {
        reveal(log_ok);
        if s.status != Status::Recovering {
            committed_length(g, g.logs[i as int], s.commit_number as nat, bound(s));
        }
    }
    reveal(Cluster::can);
    reveal(Cluster::stepped);
    match action {
        Action::Client { message, .. } => {
            responses_are_whole(g, i, s);
            room_on_message(s, message, arbitrary());
        },
        Action::Deliver { index, chunk } => {
            responses_are_whole(g, i, s);
            assert(message_ok::<SM>(h, c.sent[index].0, c.sent[index].1));
            assert(can_take(s, c.sent[index].1)) by {
                if c.sent[index].1 is DoViewChange {
                    let q = c.sent[index].1->DoViewChange_replica_id;
                    assert(q < h.config.size() && q != i);
                }
            }
            room_on_message(s, c.sent[index].1, chunk);
        },
        Action::Idle { .. } => room_on_idle(s),
        Action::Persisted { .. } => room_persisted(s),
        Action::Restart { landed, machine, applied, nonce, .. } => {
            let state = c.disks[i as int].survivor(landed).state;
            room_restart::<SM>(i, c.config, machine, applied, state, nonce);
        },
        _ => {},
    }
}

/// The logs that a replica may recover with are whole, or start at a
/// checkpoint.
proof fn responses_are_whole<SM: StateMachine>(
    g: History<SM::Input>,
    i: ReplicaID,
    s: ReplicaModel<SM>,
)
    requires
        replica_ok(g, i, s),
    ensures
        s.status == Status::Recovering ==> forall|q: ReplicaID| #[trigger]
            s.recovery_responses.contains_key(q) ==> (s.recovery_responses[q].state matches Some(
                state,
            ) ==> fresh_start(state)),
{
    reveal(change_ok);
}

/// What an action makes of a cluster bears out what the history came to.
pub proof fn step_bears_out<SM: StateMachine>(
    c: Cluster<SM>,
    account: Account<SM::Input>,
    action: Action<SM>,
) -> (next: Account<SM::Input>)
    requires
        c.bears_out(account),
        c.can(action),
        knows_its_log(c, account, action.replica_id(c)),
    ensures
        account.history.grew(next.history, action.replica_id(c)),
        next.history.moment == account.history.moment,
        c.next(action).bears_out(next),
{
    can_step(c, action);
    has_room(c, account, action);
    let i = action.replica_id(c);
    let d = c.next(action);
    let (g, trail) = if action is Client || action is Deliver {
        message_steps(c, account, action)
    } else if action is Idle {
        idle_steps(c, account, action)
    } else if action is Compact {
        log_is_compacted(c, account, action)
    } else if action is Reply {
        replies_leave(c, account, action)
    } else if action is TakeWrite {
        write_is_taken(c, account, action)
    } else if action is Persisted {
        write_lands(c, account, action)
    } else if action is SendEarly || action is Send {
        if shows::<SM>(c.config, i, c.replicas[i as int].outbox_early) {
            mail_leaves_telling(c, account, action)
        } else {
            mail_leaves_untold(c, account, action)
        }
    } else if action is Restart {
        replica_restarts(c, account, action)
    } else {
        replica_recovers(c, account, action)
    };
    let trails = Seq::new(
        c.config.size(),
        |j: int|
            if j == i {
                trail
            } else {
                account.trails[j].beside(g, j as ReplicaID)
            },
    );
    let next = Account { history: g, trails };
    assert forall|j: ReplicaID| j < d.config.size() implies #[trigger] d.has_node(next, j) by {
        if j != i {
            assert(c.has_node(account, j));
            node_stays(
                account.history,
                g,
                i,
                j,
                c.replicas[j as int],
                c.disks[j as int],
                account.trails[j as int],
            );
        }
    }
    next
}

/// Every state of a run bears out what has happened.
pub proof fn run_bears_out<SM: StateMachine>(
    config: ConfigView,
    machines: Seq<SM::State>,
    run: Seq<Cluster<SM>>,
    actions: Seq<Action<SM>>,
    k: int,
) -> (account: Account<SM::Input>)
    requires
        is_run(config, machines, run, actions),
        0 <= k < run.len(),
    ensures
        run[k].bears_out(account),
        !account.history.orderly,
    decreases k,
{
    if k == 0 {
        nothing_has_happened::<SM>(config, machines, false)
    } else {
        let account = run_bears_out(config, machines, run, actions, k - 1);
        assert(run[k - 1].can(actions[k - 1]));
        step_bears_out(run[k - 1], account, actions[k - 1])
    }
}

} // verus!
