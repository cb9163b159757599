//! What holds of a client over all that it goes through.

use vstd::prelude::*;
use crate::client::{
    awaits, drop_answered, due, due_items, each_to_all, first_query, first_request, in_flight_wf,
    lemma_drop_answered, lemma_first_at_most_next, lemma_queue_query, lemma_queue_request,
    mark_answered, queued_in_order, ClientModel, Completion, InFlight, Outgoing, Queued,
};
use crate::config::ConfigView;
use crate::ids::{ClientID, OpNumber, QueryNumber, ReplicaID, RequestNumber};
use crate::message::Reply;

verus! {

/// A call on a client.
pub enum Call<Op, Query, Output> {
    Request { op: Op },
    Query { query: Query },
    Register,
    Reply { reply: Reply<Output> },
    Idle,
    Drain,
}

impl<Op, Query> ClientModel<Op, Query> {
    /// Whether the client's numbers leave room for `call`.
    pub open spec fn takes<Output>(self, call: Call<Op, Query, Output>) -> bool {
        match call {
            Call::Request { .. } => self.next_request_number + self.config.in_flight_max
                <= usize::MAX,
            Call::Query { .. } => self.next_query_number + self.config.in_flight_max <= usize::MAX,
            Call::Idle => self.idle_periods < u64::MAX,
            _ => true,
        }
    }

    /// The client after `call`.
    pub open spec fn called<Output>(self, call: Call<Op, Query, Output>) -> Self {
        match call {
            Call::Request { op } => self.on_request(op),
            Call::Query { query } => self.on_query(query),
            Call::Register => self.register(),
            Call::Reply { reply } => self.on_reply(reply),
            Call::Idle => self.on_idle(),
            Call::Drain => ClientModel { outbox: Seq::empty(), ..self },
        }
    }

    /// Whether `call` tells the client that its session was evicted.
    pub open spec fn evicts<Output>(self, call: Call<Op, Query, Output>) -> bool {
        call matches Call::Reply { reply } && self.completion(reply) == Some(
            Completion::<Output>::Evicted,
        )
    }
}

/// Whether a new client is `states[k]` after the first `k` of `calls`.
pub open spec fn is_career<Op, Query, Output>(
    client_id: ClientID,
    config: ConfigView,
    states: Seq<ClientModel<Op, Query>>,
    calls: Seq<Call<Op, Query, Output>>,
) -> bool {
    &&& config.is_cluster()
    &&& states.len() == calls.len() + 1
    &&& states[0] == ClientModel::<Op, Query>::init(client_id, config)
    &&& forall|k: int|
        0 <= k < calls.len() ==> states[k].takes(#[trigger] calls[k]) && states[k + 1]
            == states[k].called(calls[k])
}

/// How many requests were issued in the first `k` calls since the last
/// eviction.
pub open spec fn requests_issued<Op, Query, Output>(
    states: Seq<ClientModel<Op, Query>>,
    calls: Seq<Call<Op, Query, Output>>,
    k: nat,
) -> nat
    decreases k,
{
    if k == 0 {
        0
    } else {
        let before = requests_issued(states, calls, (k - 1) as nat);
        if calls[k - 1] is Request {
            before + 1
        } else if states[k - 1].evicts(calls[k - 1]) {
            0
        } else {
            before
        }
    }
}

/// How many queries were issued in the first `k` calls.
pub open spec fn queries_issued<Op, Query, Output>(
    calls: Seq<Call<Op, Query, Output>>,
    k: nat,
) -> nat
    decreases k,
{
    if k == 0 {
        0
    } else {
        let before = queries_issued(calls, (k - 1) as nat);
        if calls[k - 1] is Query {
            before + 1
        } else {
            before
        }
    }
}

/// Sending what is queued changes nothing but what is queued, in flight and
/// on its way.
proof fn send_queued_only_sends<Op, Query>(c: ClientModel<Op, Query>)
    ensures
        c.send_queued() == (ClientModel {
            requests: c.send_queued().requests,
            queries: c.send_queued().queries,
            queued: c.send_queued().queued,
            outbox: c.send_queued().outbox,
            ..c
        }),
    decreases c.queued.len(),
{
    if c.front_may_go() {
        send_queued_only_sends(c.send_front());
    }
}

/// What a reply does to the numbers of a client.
proof fn reply_keeps_numbers<Op, Query, Output>(c: ClientModel<Op, Query>, reply: Reply<Output>)
    ensures
        c.on_reply(reply).next_query_number == c.next_query_number,
        c.on_reply(reply).next_request_number == if c.completion(reply) == Some(
            Completion::<Output>::Evicted,
        ) {
            1
        } else {
            c.next_request_number
        },
        c.on_reply(reply).config == c.config,
{
    let next = c.heard_of(reply.view_of());
    match reply {
        Reply::Registered { session, .. } => {
            send_queued_only_sends(
                ClientModel { registering: None, session: Some(session), ..next },
            );
        },
        Reply::Executed { request_number, .. } => {
            send_queued_only_sends(
                ClientModel {
                    requests: drop_answered(mark_answered(c.requests, request_number)),
                    ..next
                },
            );
        },
        Reply::Queried { query_number, .. } => {
            send_queued_only_sends(
                ClientModel {
                    queries: drop_answered(mark_answered(c.queries, query_number)),
                    ..next
                },
            );
        },
        Reply::Evicted { .. } => {},
    }
}

/// Requests are numbered from 1 without gap or repeat, whether they are sent
/// or queued, and from 1 again once the session is evicted: the next is
/// numbered one more than were issued.
pub proof fn requests_are_numbered_in_order<Op, Query, Output>(
    client_id: ClientID,
    config: ConfigView,
    states: Seq<ClientModel<Op, Query>>,
    calls: Seq<Call<Op, Query, Output>>,
    k: nat,
)
    requires
        is_career(client_id, config, states, calls),
        k < states.len(),
    ensures
        states[k as int].next_request_number == requests_issued(states, calls, k) + 1,
        states[k as int].config == config,
    decreases k,
{
    if k > 0 {
        let j = (k - 1) as nat;
        requests_are_numbered_in_order(client_id, config, states, calls, j);
        let call = calls[j as int];
        assert(states[j as int].takes(call));
        match call {
            Call::Reply { reply } => reply_keeps_numbers(states[j as int], reply),
            _ => {},
        }
    }
}

/// Queries are numbered from 1 without gap or repeat, evictions or not: the
/// next is numbered one more than were issued.
pub proof fn query_numbers_never_repeat<Op, Query, Output>(
    client_id: ClientID,
    config: ConfigView,
    states: Seq<ClientModel<Op, Query>>,
    calls: Seq<Call<Op, Query, Output>>,
    k: nat,
)
    requires
        is_career(client_id, config, states, calls),
        k < states.len(),
    ensures
        states[k as int].next_query_number == queries_issued(calls, k) + 1,
    decreases k,
{
    if k > 0 {
        let j = (k - 1) as nat;
        requests_are_numbered_in_order(client_id, config, states, calls, j);
        query_numbers_never_repeat(client_id, config, states, calls, j);
        let call = calls[j as int];
        assert(states[j as int].takes(call));
        match call {
            Call::Reply { reply } => reply_keeps_numbers(states[j as int], reply),
            _ => {},
        }
    }
}

/// Sending what is queued keeps the operations in order.
proof fn send_queued_keeps<Op, Query>(c: ClientModel<Op, Query>)
    requires
        c.ordered(),
    ensures
        c.send_queued().inv(),
    decreases c.queued.len(),
{
    if c.queued.len() > 0 {
        lemma_first_at_most_next(c.queued, c.next_request_number, c.next_query_number);
        lemma_first_at_most_next(c.queued.skip(1), c.next_request_number, c.next_query_number);
    }
    if c.front_may_go() {
        send_queued_keeps(c.send_front());
    }
}

/// A reply keeps the operations in order.
proof fn reply_keeps<Op, Query, Output>(c: ClientModel<Op, Query>, reply: Reply<Output>)
    requires
        c.inv(),
    ensures
        c.on_reply(reply).inv(),
{
    let next = c.heard_of(reply.view_of());
    if reply.client() == c.client_id {
        match reply {
            Reply::Registered { session, .. } => {
                if c.registering is Some && session > c.evicted {
                    send_queued_keeps(
                        ClientModel { registering: None, session: Some(session), ..next },
                    );
                }
            },
            Reply::Executed { request_number, .. } => {
                lemma_drop_answered(
                    mark_answered(c.requests, request_number),
                    c.next_request_number,
                    c.idle_periods,
                );
                if c.completes(reply) {
                    send_queued_keeps(
                        ClientModel {
                            requests: drop_answered(mark_answered(c.requests, request_number)),
                            ..next
                        },
                    );
                }
            },
            Reply::Queried { query_number, .. } => {
                lemma_drop_answered(
                    mark_answered(c.queries, query_number),
                    c.next_query_number,
                    c.idle_periods,
                );
                if c.completes(reply) {
                    send_queued_keeps(
                        ClientModel {
                            queries: drop_answered(mark_answered(c.queries, query_number)),
                            ..next
                        },
                    );
                }
            },
            Reply::Evicted { .. } => {},
        }
    }
}

/// A call keeps the operations in order.
proof fn call_keeps<Op, Query, Output>(c: ClientModel<Op, Query>, call: Call<Op, Query, Output>)
    requires
        c.inv(),
        c.takes(call),
    ensures
        c.called(call).inv(),
{
    match call {
        Call::Request { op } => {
            lemma_queue_request(c.queued, c.next_request_number, c.next_query_number, op);
        },
        Call::Query { query } => {
            lemma_queue_query(c.queued, c.next_request_number, c.next_query_number, query);
        },
        Call::Reply { reply } => reply_keeps(c, reply),
        _ => {},
    }
}

/// Requests and queries are never in flight together, and of either at most
/// `in_flight_max` are: the newest sent is less than that after the oldest
/// without a reply.
pub proof fn operations_stay_within_the_window<Op, Query, Output>(
    client_id: ClientID,
    config: ConfigView,
    states: Seq<ClientModel<Op, Query>>,
    calls: Seq<Call<Op, Query, Output>>,
    k: nat,
)
    requires
        is_career(client_id, config, states, calls),
        k < states.len(),
    ensures
        states[k as int].inv(),
        ({
            let c = states[k as int];
            &&& c.requests.len() == 0 || c.queries.len() == 0
            &&& c.requests.len() > 0 ==> c.requests[0].item is Some && c.requests.last().number
                - c.requests[0].number < config.in_flight_max
            &&& c.queries.len() > 0 ==> c.queries[0].item is Some && c.queries.last().number
                - c.queries[0].number < config.in_flight_max
        }),
    decreases k,
{
    requests_are_numbered_in_order(client_id, config, states, calls, k);
    if k > 0 {
        let j = (k - 1) as nat;
        operations_stay_within_the_window(client_id, config, states, calls, j);
        assert(states[j as int].takes(calls[j as int]));
        call_keeps(states[j as int], calls[j as int]);
    }
}

/// Whether a client that has no session, and has not asked for one, has no
/// request to send.
spec fn asks_if_it_must<Op, Query>(c: ClientModel<Op, Query>) -> bool {
    c.session is None && c.registering is None ==> c.requests.len() == 0 && forall|i: int|
        0 <= i < c.queued.len() ==> #[trigger] c.queued[i] is Query
}

proof fn call_asks<Op, Query, Output>(c: ClientModel<Op, Query>, call: Call<Op, Query, Output>)
    requires
        asks_if_it_must(c),
        c.inv(),
    ensures
        asks_if_it_must(c.called(call)),
{
    if let Call::Reply { reply } = call {
        let next = c.heard_of(reply.view_of());
        match reply {
            Reply::Registered { session, .. } => {
                send_queued_only_sends(
                    ClientModel { registering: None, session: Some(session), ..next },
                );
            },
            Reply::Executed { request_number, .. } => {
                send_queued_only_sends(
                    ClientModel {
                        requests: drop_answered(mark_answered(c.requests, request_number)),
                        ..next
                    },
                );
            },
            Reply::Queried { query_number, .. } => {
                let answered = ClientModel {
                    queries: drop_answered(mark_answered(c.queries, query_number)),
                    ..next
                };
                send_queued_only_sends(answered);
                if c.session is None && c.registering is None {
                    queries_only_go(answered);
                }
            },
            Reply::Evicted { .. } => {},
        }
    }
}

/// A client without requests to send sends none.
proof fn queries_only_go<Op, Query>(c: ClientModel<Op, Query>)
    requires
        c.session is None,
        c.requests.len() == 0,
        forall|i: int| 0 <= i < c.queued.len() ==> #[trigger] c.queued[i] is Query,
    ensures
        c.send_queued().requests.len() == 0,
        forall|i: int|
            0 <= i < c.send_queued().queued.len() ==> #[trigger] c.send_queued().queued[i] is Query,
    decreases c.queued.len(),
{
    if c.front_may_go() {
        assert(c.queued[0] is Query);
        let next = c.send_front();
        assert forall|i: int| 0 <= i < next.queued.len() implies #[trigger] next.queued[i] is Query by {
            assert(next.queued[i] == c.queued[i + 1]);
        }
        queries_only_go(next);
    }
}

proof fn career_asks<Op, Query, Output>(
    client_id: ClientID,
    config: ConfigView,
    states: Seq<ClientModel<Op, Query>>,
    calls: Seq<Call<Op, Query, Output>>,
    k: nat,
)
    requires
        is_career(client_id, config, states, calls),
        k < states.len(),
    ensures
        asks_if_it_must(states[k as int]),
        states[k as int].config == config,
    decreases k,
{
    requests_are_numbered_in_order(client_id, config, states, calls, k);
    if k > 0 {
        let j = (k - 1) as nat;
        career_asks(client_id, config, states, calls, j);
        operations_stay_within_the_window(client_id, config, states, calls, j);
        assert(states[j as int].takes(calls[j as int]));
        call_asks(states[j as int], calls[j as int]);
    }
}

/// An operation waits only for what it has to wait for. A request that is
/// queued first waits for the session, which the client has asked for, or for
/// the replies to earlier queries, or because `in_flight_max` requests from
/// the oldest without a reply on are out; and a query that is queued first
/// waits for the replies to earlier requests, or because as many queries are
/// out.
pub proof fn operations_wait_no_longer_than_they_must<Op, Query, Output>(
    client_id: ClientID,
    config: ConfigView,
    states: Seq<ClientModel<Op, Query>>,
    calls: Seq<Call<Op, Query, Output>>,
    k: nat,
)
    requires
        is_career(client_id, config, states, calls),
        k < states.len(),
        states[k as int].queued.len() > 0,
    ensures
        ({
            let c = states[k as int];
            match c.queued[0] {
                Queued::Request(number, _) => {
                    ||| c.session is None && c.registering is Some
                    ||| c.queries.len() > 0
                    ||| c.requests.len() == config.in_flight_max && c.requests[0].item is Some
                        && number == c.requests[0].number + config.in_flight_max
                },
                Queued::Query(number, _) => {
                    ||| c.requests.len() > 0
                    ||| c.queries.len() == config.in_flight_max && c.queries[0].item is Some
                        && number == c.queries[0].number + config.in_flight_max
                },
            }
        }),
{
    let c = states[k as int];
    operations_stay_within_the_window(client_id, config, states, calls, k);
    career_asks(client_id, config, states, calls, k);
    assert(c.queued[0] is Query || c.queued[0] is Request);
    if c.requests.len() > 0 {
        assert(c.requests.last().number == c.requests[0].number + c.requests.len() - 1);
    }
    if c.queries.len() > 0 {
        assert(c.queries.last().number == c.queries[0].number + c.queries.len() - 1);
    }
}

/// A client goes by the latest view that a reply to it has told it of, and
/// sends what it sends for the first time to the primary of that view.
pub proof fn a_client_turns_to_the_primary_it_knows<Op, Query, Output>(
    c: ClientModel<Op, Query>,
    call: Call<Op, Query, Output>,
)
    ensures
        ({
            let d = c.called(call);
            &&& d.view_number == match call {
                Call::Reply { reply } => if reply.client() == c.client_id && reply.view_of()
                    > c.view_number {
                    reply.view_of()
                } else {
                    c.view_number
                },
                _ => c.view_number,
            }
            &&& !(call is Idle) && !c.evicts(call) ==> forall|n: int|
                c.outbox.len() <= n < d.outbox.len() ==> (#[trigger] d.outbox[n]).0
                    == c.config.primary_of(d.view_number)
        }),
{
    if let Call::Reply { reply } = call {
        let next = c.heard_of(reply.view_of());
        match reply {
            Reply::Registered { session, .. } => {
                queue_goes_to_primary(
                    ClientModel { registering: None, session: Some(session), ..next },
                );
            },
            Reply::Executed { request_number, .. } => {
                queue_goes_to_primary(
                    ClientModel {
                        requests: drop_answered(mark_answered(c.requests, request_number)),
                        ..next
                    },
                );
            },
            Reply::Queried { query_number, .. } => {
                queue_goes_to_primary(
                    ClientModel {
                        queries: drop_answered(mark_answered(c.queries, query_number)),
                        ..next
                    },
                );
            },
            Reply::Evicted { .. } => {},
        }
    }
}

proof fn queue_goes_to_primary<Op, Query>(c: ClientModel<Op, Query>)
    ensures
        c.send_queued().view_number == c.view_number,
        c.send_queued().config == c.config,
        c.outbox.len() <= c.send_queued().outbox.len(),
        forall|n: int|
            c.outbox.len() <= n < c.send_queued().outbox.len() ==> (
            #[trigger] c.send_queued().outbox[n]).0 == c.config.primary_of(c.view_number),
        forall|n: int|
            0 <= n < c.outbox.len() ==> #[trigger] c.send_queued().outbox[n] == c.outbox[n],
    decreases c.queued.len(),
{
    if c.front_may_go() {
        queue_goes_to_primary(c.send_front());
    }
}

/// The operations in `mail`, in order.
pub open spec fn operations<Op, Query>(mail: Seq<(ReplicaID, Outgoing<Op, Query>)>) -> Seq<
    Queued<Op, Query>,
>
    decreases mail.len(),
{
    if mail.len() == 0 {
        Seq::empty()
    } else {
        let before = operations(mail.drop_last());
        match mail.last().1 {
            Outgoing::Register => before,
            Outgoing::Request { request_number, op, .. } => before.push(
                Queued::Request(request_number, op),
            ),
            Outgoing::Query { query_number, query } => before.push(
                Queued::Query(query_number, query),
            ),
        }
    }
}

/// The operations issued in the first `k` calls since the last eviction,
/// which fails those before it.
pub open spec fn issued<Op, Query, Output>(
    states: Seq<ClientModel<Op, Query>>,
    calls: Seq<Call<Op, Query, Output>>,
    k: nat,
) -> Seq<Queued<Op, Query>>
    decreases k,
{
    if k == 0 {
        Seq::empty()
    } else {
        let c = states[k - 1];
        let before = issued(states, calls, (k - 1) as nat);
        match calls[k - 1] {
            Call::Request { op } => before.push(Queued::Request(c.next_request_number, op)),
            Call::Query { query } => before.push(Queued::Query(c.next_query_number, query)),
            _ => if c.evicts(calls[k - 1]) {
                Seq::empty()
            } else {
                before
            },
        }
    }
}

/// The operations sent in the first `k` calls since the last eviction, but
/// for what idle periods send again.
pub open spec fn first_sent<Op, Query, Output>(
    states: Seq<ClientModel<Op, Query>>,
    calls: Seq<Call<Op, Query, Output>>,
    k: nat,
) -> Seq<Queued<Op, Query>>
    decreases k,
{
    if k == 0 {
        Seq::empty()
    } else {
        let c = states[k - 1];
        let before = first_sent(states, calls, (k - 1) as nat);
        if c.evicts(calls[k - 1]) {
            Seq::empty()
        } else if calls[k - 1] is Idle || calls[k - 1] is Drain {
            before
        } else {
            before + operations(states[k as int].outbox.skip(c.outbox.len() as int))
        }
    }
}

/// What goes out of the queue is sent in its order.
proof fn queue_goes_out_in_order<Op, Query>(c: ClientModel<Op, Query>)
    ensures
        ({
            let d = c.send_queued();
            &&& c.outbox.len() <= d.outbox.len()
            &&& d.outbox.take(c.outbox.len() as int) == c.outbox
            &&& c.queued == operations(d.outbox.skip(c.outbox.len() as int)) + d.queued
        }),
    decreases c.queued.len(),
{
    let d = c.send_queued();
    let n = c.outbox.len() as int;
    if c.front_may_go() {
        let e = c.send_front();
        queue_goes_out_in_order(e);
        let first = e.outbox.last();
        let rest = d.outbox.skip(n + 1);
        assert(d.outbox.take(n) =~= d.outbox.take(n + 1).take(n));
        assert(e.outbox.take(n) =~= c.outbox);
        assert(d.outbox[n] == d.outbox.take(n + 1)[n]);
        assert(d.outbox.skip(n) =~= seq![first] + rest);
        operations_after_first(first, rest);
        assert(c.queued =~= seq![c.queued[0]] + c.queued.skip(1));
        assert(operations(seq![first]) =~= seq![c.queued[0]]) by {
            reveal_with_fuel(operations, 2);
            assert(seq![first].drop_last() =~= Seq::<(ReplicaID, Outgoing<Op, Query>)>::empty());
        }
        assert(c.queued =~= operations(d.outbox.skip(n)) + d.queued);
    } else {
        assert(d.outbox.skip(n) =~= Seq::<(ReplicaID, Outgoing<Op, Query>)>::empty());
        assert(d.outbox.take(n) =~= c.outbox);
        assert(c.queued =~= operations(d.outbox.skip(n)) + d.queued);
    }
}

proof fn operations_after_first<Op, Query>(
    first: (ReplicaID, Outgoing<Op, Query>),
    rest: Seq<(ReplicaID, Outgoing<Op, Query>)>,
)
    ensures
        operations(seq![first] + rest) == operations(seq![first]) + operations(rest),
    decreases rest.len(),
{
    let all = seq![first] + rest;
    if rest.len() == 0 {
        assert(all =~= seq![first]);
        assert(operations(seq![first]) + operations(rest) =~= operations(seq![first]));
    } else {
        assert(all.drop_last() =~= seq![first] + rest.drop_last());
        assert(all.last() == rest.last());
        operations_after_first(first, rest.drop_last());
        assert(operations(all) =~= operations(seq![first]) + operations(rest));
    }
}

/// What a call that issues an operation sends.
proof fn issue_sends<Op, Query, Output>(
    c: ClientModel<Op, Query>,
    call: Call<Op, Query, Output>,
    item: Queued<Op, Query>,
)
    requires
        item == match call {
            Call::Request { op } => Queued::Request(c.next_request_number, op),
            Call::Query { query } => Queued::Query(c.next_query_number, query),
            _ => item,
        },
        call is Request || call is Query,
    ensures
        c.queued.push(item) == operations(c.called(call).outbox.skip(c.outbox.len() as int))
            + c.called(call).queued,
{
    let d = c.called(call);
    let sent = d.outbox.skip(c.outbox.len() as int);
    reveal_with_fuel(operations, 2);
    if sent.len() > 0 {
        assert(sent.drop_last() =~= Seq::<(ReplicaID, Outgoing<Op, Query>)>::empty());
    }
    assert(c.queued.push(item) =~= operations(sent) + d.queued);
}

/// What a reply that evicts nothing sends comes from the queue, in order.
proof fn reply_sends<Op, Query, Output>(c: ClientModel<Op, Query>, reply: Reply<Output>)
    requires
        c.completion(reply) != Some(Completion::<Output>::Evicted),
    ensures
        c.queued == operations(c.on_reply(reply).outbox.skip(c.outbox.len() as int)) + c.on_reply(
            reply,
        ).queued,
{
    let d = c.on_reply(reply);
    let next = c.heard_of(reply.view_of());
    assert(c.outbox.skip(c.outbox.len() as int) =~= Seq::<
        (ReplicaID, Outgoing<Op, Query>),
    >::empty());
    assert(c.queued =~= Seq::<Queued<Op, Query>>::empty() + c.queued);
    match reply {
        Reply::Registered { session, .. } => {
            queue_goes_out_in_order(
                ClientModel { registering: None, session: Some(session), ..next },
            );
        },
        Reply::Executed { request_number, .. } => {
            queue_goes_out_in_order(
                ClientModel {
                    requests: drop_answered(mark_answered(c.requests, request_number)),
                    ..next
                },
            );
        },
        Reply::Queried { query_number, .. } => {
            queue_goes_out_in_order(
                ClientModel {
                    queries: drop_answered(mark_answered(c.queries, query_number)),
                    ..next
                },
            );
        },
        Reply::Evicted { .. } => {},
    }
}

/// Operations are first sent in the order they were issued, each once: what
/// was issued is what was first sent, and then what is still queued.
pub proof fn operations_are_sent_in_the_order_issued<Op, Query, Output>(
    client_id: ClientID,
    config: ConfigView,
    states: Seq<ClientModel<Op, Query>>,
    calls: Seq<Call<Op, Query, Output>>,
    k: nat,
)
    requires
        is_career(client_id, config, states, calls),
        k < states.len(),
    ensures
        issued(states, calls, k) == first_sent(states, calls, k) + states[k as int].queued,
    decreases k,
{
    if k == 0 {
        assert(issued(states, calls, k) =~= first_sent(states, calls, k) + states[0].queued);
    } else {
        let j = (k - 1) as nat;
        operations_are_sent_in_the_order_issued(client_id, config, states, calls, j);
        let c = states[j as int];
        let d = states[k as int];
        let call = calls[j as int];
        assert(c.takes(call));
        let before = first_sent(states, calls, j);
        let new = operations(d.outbox.skip(c.outbox.len() as int));
        match call {
            Call::Request { op } => {
                issue_sends(c, call, Queued::Request(c.next_request_number, op));
                assert(issued(states, calls, k) =~= before + c.queued.push(
                    Queued::Request(c.next_request_number, op),
                ));
                assert(before + (new + d.queued) =~= (before + new) + d.queued);
            },
            Call::Query { query } => {
                issue_sends(c, call, Queued::Query(c.next_query_number, query));
                assert(issued(states, calls, k) =~= before + c.queued.push(
                    Queued::Query(c.next_query_number, query),
                ));
                assert(before + (new + d.queued) =~= (before + new) + d.queued);
            },
            Call::Reply { reply } => {
                if c.evicts(call) {
                    assert(issued(states, calls, k) =~= first_sent(states, calls, k) + d.queued);
                } else {
                    reply_sends(c, reply);
                    assert(before + (new + d.queued) =~= (before + new) + d.queued);
                }
            },
            Call::Register => {
                let sent = d.outbox.skip(c.outbox.len() as int);
                reveal_with_fuel(operations, 2);
                if sent.len() > 0 {
                    assert(sent.drop_last() =~= Seq::<(ReplicaID, Outgoing<Op, Query>)>::empty());
                }
                assert(before + new =~= before);
            },
            _ => {},
        }
    }
}

/// An item in flight is answered once: after its reply it awaits none, and
/// the rest still await theirs, numbered in order.
pub proof fn an_item_is_answered_once<T>(
    in_flight: Seq<InFlight<T>>,
    number: usize,
    next: usize,
    now: u64,
)
    requires
        in_flight_wf(in_flight, next, now),
    ensures
        in_flight_wf(drop_answered(mark_answered(in_flight, number)), next, now),
        !awaits(drop_answered(mark_answered(in_flight, number)), number),
        forall|other: usize|
            other != number ==> (#[trigger] awaits(
                drop_answered(mark_answered(in_flight, number)),
                other,
            ) <==> awaits(in_flight, other)),
{
    let marked = mark_answered(in_flight, number);
    lemma_drop_answered(marked, next, now);
    dropping_keeps_awaited(marked);
    assert forall|other: usize| other != number implies (#[trigger] awaits(
        drop_answered(marked),
        other,
    ) <==> awaits(in_flight, other)) by {
        if awaits(in_flight, other) {
            let i = choose|i: int|
                0 <= i < in_flight.len() && (#[trigger] in_flight[i]).number == other
                    && in_flight[i].item is Some;
            assert(marked[i].number == other);
            assert(awaits(marked, other));
        }
        if awaits(marked, other) {
            let i = choose|i: int|
                0 <= i < marked.len() && (#[trigger] marked[i]).number == other
                    && marked[i].item is Some;
            assert(in_flight[i].number == other);
        }
    }
}

/// Dropping what has its reply drops nothing that awaits one.
proof fn dropping_keeps_awaited<T>(in_flight: Seq<InFlight<T>>)
    ensures
        forall|number: usize| #[trigger]
            awaits(drop_answered(in_flight), number) <==> awaits(in_flight, number),
    decreases in_flight.len(),
{
    if in_flight.len() > 0 && in_flight[0].item is None {
        let rest = in_flight.skip(1);
        dropping_keeps_awaited(rest);
        assert forall|number: usize| #[trigger]
            awaits(drop_answered(in_flight), number) <==> awaits(in_flight, number) by {
            assert(awaits(drop_answered(rest), number) <==> awaits(rest, number));
            if awaits(in_flight, number) {
                let i = choose|i: int|
                    0 <= i < in_flight.len() && (#[trigger] in_flight[i]).number == number
                        && in_flight[i].item is Some;
                assert(rest[i - 1].number == number);
            }
            if awaits(rest, number) {
                let i = choose|i: int|
                    0 <= i < rest.len() && (#[trigger] rest[i]).number == number
                        && rest[i].item is Some;
                assert(in_flight[i + 1].number == number);
            }
        }
    }
}

/// What is sent from the queue is numbered from its front on.
proof fn queue_is_numbered_on<Op, Query>(c: ClientModel<Op, Query>, number: usize)
    requires
        queued_in_order(c.queued, c.next_request_number, c.next_query_number),
    ensures
        number < first_request(c.queued, c.next_request_number) && awaits(
            c.send_queued().requests,
            number,
        ) ==> awaits(c.requests, number),
        number < first_query(c.queued, c.next_query_number) && awaits(
            c.send_queued().queries,
            number,
        ) ==> awaits(c.queries, number),
    decreases c.queued.len(),
{
    if c.front_may_go() {
        let d = c.send_front();
        queue_is_numbered_on(d, number);
        if awaits(d.requests, number) {
            let i = choose|i: int|
                0 <= i < d.requests.len() && (#[trigger] d.requests[i]).number == number
                    && d.requests[i].item is Some;
            if i < c.requests.len() {
                assert(c.requests[i].number == number);
            }
        }
        if awaits(d.queries, number) {
            let i = choose|i: int|
                0 <= i < d.queries.len() && (#[trigger] d.queries[i]).number == number
                    && d.queries[i].item is Some;
            if i < c.queries.len() {
                assert(c.queries[i].number == number);
            }
        }
    }
}

/// A reply completes something once: it completes nothing when it comes
/// again.
pub proof fn a_reply_completes_once<Op, Query, Output>(
    c: ClientModel<Op, Query>,
    reply: Reply<Output>,
)
    requires
        c.inv(),
        c.completes(reply),
    ensures
        !c.on_reply(reply).completes(reply),
{
    let next = c.heard_of(reply.view_of());
    match reply {
        Reply::Executed { request_number, .. } => {
            an_item_is_answered_once(
                c.requests,
                request_number,
                c.next_request_number,
                c.idle_periods,
            );
            let answered = ClientModel {
                requests: drop_answered(mark_answered(c.requests, request_number)),
                ..next
            };
            send_queued_only_sends(answered);
            queue_is_numbered_on(answered, request_number);
        },
        Reply::Queried { query_number, .. } => {
            an_item_is_answered_once(
                c.queries,
                query_number,
                c.next_query_number,
                c.idle_periods,
            );
            let answered = ClientModel {
                queries: drop_answered(mark_answered(c.queries, query_number)),
                ..next
            };
            send_queued_only_sends(answered);
            queue_is_numbered_on(answered, query_number);
        },
        _ => {},
    }
}

/// Each of `outgoing` goes to every replica once, in order.
proof fn each_goes_to_all<Op, Query>(outgoing: Seq<Outgoing<Op, Query>>, size: nat)
    ensures
        each_to_all(outgoing, size).len() == outgoing.len() * size,
        forall|i: int, r: int|
            0 <= i < outgoing.len() && 0 <= r < size ==> 0 <= #[trigger] at(i, size, r)
                < outgoing.len() * size && each_to_all(outgoing, size)[at(i, size, r)] == (
                r as ReplicaID,
                outgoing[i],
            ),
    decreases outgoing.len(),
{
    if outgoing.len() > 0 {
        let rest = outgoing.drop_last();
        each_goes_to_all(rest, size);
        let n = rest.len() as int;
        assert((n + 1) * size == n * size + size) by (nonlinear_arith);
        assert forall|i: int, r: int| 0 <= i < outgoing.len() && 0 <= r < size implies 0
            <= #[trigger] at(i, size, r) < outgoing.len() * size && each_to_all(
            outgoing,
            size,
        )[at(i, size, r)] == (r as ReplicaID, outgoing[i]) by {
            assert(0 <= i * size) by (nonlinear_arith)
                requires
                    0 <= i,
                    0 <= size,
            ;
            if i < n {
                assert(i * size + size <= n * size) by (nonlinear_arith)
                    requires
                        i + 1 <= n,
                        0 <= size,
                ;
                assert(at(i, size, r) < n * size);
                assert(rest[i] == outgoing[i]);
            }
        }
    }
}

/// Where the copy for replica `r` of the item at `i` is, if each item goes to
/// `size` replicas.
pub open spec fn at(i: int, size: nat, r: int) -> int {
    i * size + r
}

/// What is due of what is in flight: nothing else, nothing less, and nothing
/// twice.
proof fn due_items_are_due<T>(in_flight: Seq<InFlight<T>>, now: u64, from: int)
    requires
        forall|i: int|
            0 <= i < in_flight.len() ==> (#[trigger] in_flight[i]).number == from + i,
    ensures
        ({
            let items = due_items(in_flight, now);
            &&& forall|i: int|
                0 <= i < in_flight.len() && due((#[trigger] in_flight[i]).sent, now)
                    && in_flight[i].item is Some ==> items.contains(in_flight[i])
            &&& forall|k: int|
                0 <= k < items.len() ==> in_flight.contains(#[trigger] items[k]) && due(
                    items[k].sent,
                    now,
                ) && items[k].item is Some && items[k].number < from + in_flight.len()
            &&& forall|j: int, k: int|
                0 <= j < k < items.len() ==> (#[trigger] items[j]).number < (
                #[trigger] items[k]).number
        }),
    decreases in_flight.len(),
{
    reveal(Seq::filter);
    if in_flight.len() > 0 {
        let rest = in_flight.drop_last();
        let last = in_flight.last();
        due_items_are_due(rest, now, from);
        let before = due_items(rest, now);
        let items = due_items(in_flight, now);
        assert(in_flight[in_flight.len() - 1] == last);
        assert forall|i: int|
            0 <= i < in_flight.len() && due((#[trigger] in_flight[i]).sent, now)
                && in_flight[i].item is Some implies items.contains(in_flight[i]) by {
            if i < rest.len() {
                assert(rest[i] == in_flight[i]);
                assert(before.contains(in_flight[i]));
                let k = choose|k: int| 0 <= k < before.len() && before[k] == in_flight[i];
                assert(items[k] == in_flight[i]);
            } else {
                assert(items[items.len() - 1] == last);
            }
        }
        assert forall|k: int| 0 <= k < items.len() implies in_flight.contains(#[trigger] items[k])
            && due(items[k].sent, now) && items[k].item is Some && items[k].number < from
            + in_flight.len() by {
            if k < before.len() {
                assert(items[k] == before[k]);
                assert(rest.contains(before[k]));
                let i = choose|i: int| 0 <= i < rest.len() && rest[i] == before[k];
                assert(in_flight[i] == before[k]);
            }
        }
    }
}

/// An idle period sends each thing that went a whole period without a reply
/// to every replica once, and nothing else: the registration, the requests
/// with their session, number and op, and the queries. Each was last sent
/// before the idle period before this one. What is queued, the session and
/// the view stay.
pub proof fn idle_periods_send_again_what_went_unanswered<Op, Query>(c: ClientModel<Op, Query>)
    requires
        c.inv(),
        c.idle_periods < u64::MAX,
    ensures
        ({
            let now = (c.idle_periods + 1) as u64;
            let d = c.on_idle();
            let again = c.resend(now);
            let size = c.config.size();
            let copies = d.outbox.skip(c.outbox.len() as int);
            &&& d.session == c.session
            &&& d.view_number == c.view_number
            &&& d.queued == c.queued
            &&& d.outbox.take(c.outbox.len() as int) == c.outbox
            // Every replica gets one copy of each.
            &&& copies.len() == again.len() * size
            &&& forall|k: int, r: int|
                0 <= k < again.len() && 0 <= r < size ==> 0 <= #[trigger] at(k, size, r)
                    < copies.len() && copies[at(k, size, r)] == (r as ReplicaID, again[k])
            // Nothing is sent twice.
            &&& forall|j: int, k: int| 0 <= j < k < again.len() ==> again[j] != again[k]
            // All that is due is sent.
            &&& c.registering is Some && c.registering->0 < c.idle_periods ==> again.contains(
                Outgoing::Register,
            )
            &&& forall|i: int|
                0 <= i < c.requests.len() && (#[trigger] c.requests[i]).sent < c.idle_periods
                    && c.requests[i].item is Some ==> again.contains(
                    Outgoing::Request {
                        session: c.session->0,
                        request_number: c.requests[i].number,
                        answered: (c.requests[0].number - 1) as RequestNumber,
                        op: c.requests[i].item->0,
                    },
                )
            &&& forall|i: int|
                0 <= i < c.queries.len() && (#[trigger] c.queries[i]).sent < c.idle_periods
                    && c.queries[i].item is Some ==> again.contains(
                    Outgoing::Query {
                        query_number: c.queries[i].number,
                        query: c.queries[i].item->0,
                    },
                )
            // Nothing else is.
            &&& forall|k: int|
                0 <= k < again.len() ==> match #[trigger] again[k] {
                    Outgoing::Register => c.registering matches Some(sent) && sent
                        < c.idle_periods,
                    Outgoing::Request { session, request_number, answered, op } => {
                        &&& c.session == Some(session)
                        &&& answered == c.requests[0].number - 1
                        &&& exists|i: int|
                            {
                                &&& 0 <= i < c.requests.len()
                                &&& (#[trigger] c.requests[i]).number == request_number
                                &&& c.requests[i].item == Some(op)
                                &&& c.requests[i].sent < c.idle_periods
                            }
                    },
                    Outgoing::Query { query_number, query } => exists|i: int|
                        {
                            &&& 0 <= i < c.queries.len()
                            &&& (#[trigger] c.queries[i]).number == query_number
                            &&& c.queries[i].item == Some(query)
                            &&& c.queries[i].sent < c.idle_periods
                        },
                }
        }),
{
    let now = (c.idle_periods + 1) as u64;
    let d = c.on_idle();
    let again = c.resend(now);
    let n = c.outbox.len() as int;
    each_goes_to_all(again, c.config.size());
    assert(d.outbox.take(n) =~= c.outbox);
    assert(d.outbox.skip(n) =~= each_to_all(again, c.config.size()));
    due_items_are_due(c.requests, now, if c.requests.len() > 0 {
        c.requests[0].number as int
    } else {
        0
    });
    due_items_are_due(c.queries, now, if c.queries.len() > 0 {
        c.queries[0].number as int
    } else {
        0
    });
    let requests = due_items(c.requests, now);
    let queries = due_items(c.queries, now);
    let m: int = if c.registering is Some && due(c.registering->0, now) {
        1
    } else {
        0
    };
    assert(again.len() == m + requests.len() + queries.len());
    assert forall|i: int|
        0 <= i < c.requests.len() && (#[trigger] c.requests[i]).sent < c.idle_periods
            && c.requests[i].item is Some implies again.contains(
        Outgoing::Request {
            session: c.session->0,
            request_number: c.requests[i].number,
            answered: (c.requests[0].number - 1) as RequestNumber,
            op: c.requests[i].item->0,
        },
    ) by {
        assert(requests.contains(c.requests[i]));
        let k = choose|k: int| 0 <= k < requests.len() && requests[k] == c.requests[i];
        assert(again[m + k] is Request);
    }
    assert forall|i: int|
        0 <= i < c.queries.len() && (#[trigger] c.queries[i]).sent < c.idle_periods
            && c.queries[i].item is Some implies again.contains(
        Outgoing::Query { query_number: c.queries[i].number, query: c.queries[i].item->0 },
    ) by {
        assert(queries.contains(c.queries[i]));
        let k = choose|k: int| 0 <= k < queries.len() && queries[k] == c.queries[i];
        assert(again[m + requests.len() + k] is Query);
    }
    if m == 1 {
        assert(again[0] is Register);
    }
    assert forall|k: int| 0 <= k < again.len() implies match #[trigger] again[k] {
        Outgoing::Register => c.registering matches Some(sent) && sent < c.idle_periods,
        Outgoing::Request { session, request_number, answered, op } => {
            &&& c.session == Some(session)
            &&& answered == c.requests[0].number - 1
            &&& exists|i: int|
                {
                    &&& 0 <= i < c.requests.len()
                    &&& (#[trigger] c.requests[i]).number == request_number
                    &&& c.requests[i].item == Some(op)
                    &&& c.requests[i].sent < c.idle_periods
                }
        },
        Outgoing::Query { query_number, query } => exists|i: int|
            {
                &&& 0 <= i < c.queries.len()
                &&& (#[trigger] c.queries[i]).number == query_number
                &&& c.queries[i].item == Some(query)
                &&& c.queries[i].sent < c.idle_periods
            },
    } by {
        if k >= m + requests.len() {
            let item = queries[k - m - requests.len()];
            assert(c.queries.contains(item));
            let i = choose|i: int| 0 <= i < c.queries.len() && c.queries[i] == item;
            assert(c.queries[i].number == item.number);
        } else if k >= m {
            let item = requests[k - m];
            assert(c.requests.contains(item));
            let i = choose|i: int| 0 <= i < c.requests.len() && c.requests[i] == item;
            assert(c.requests[i].number == item.number);
        }
    }
    assert forall|j: int, k: int| 0 <= j < k < again.len() implies again[j] != again[k] by {
        if k >= m + requests.len() && j >= m + requests.len() {
            assert(queries[j - m - requests.len()].number < queries[k - m - requests.len()].number);
        } else if j >= m && k < m + requests.len() {
            assert(requests[j - m].number < requests[k - m].number);
        }
    }
}

/// Whether nothing that a client issued up to the end of session `session`,
/// and no query before `query_number`, is left of it.
pub open spec fn is_past<Op, Query>(
    c: ClientModel<Op, Query>,
    session: OpNumber,
    query_number: QueryNumber,
) -> bool {
    &&& c.evicted >= session
    &&& c.session matches Some(current) ==> current > c.evicted
    &&& c.requests.len() > 0 ==> c.session is Some
    &&& c.next_query_number >= query_number
    &&& forall|i: int| 0 <= i < c.queries.len() ==> (#[trigger] c.queries[i]).number >= query_number
    &&& forall|i: int|
        0 <= i < c.queued.len() ==> ((#[trigger] c.queued[i]) matches Queued::Query(number, _)
            ==> number >= query_number)
    &&& forall|i: int|
        0 <= i < c.outbox.len() ==> sent_after((#[trigger] c.outbox[i]).1, session, query_number)
}

/// Whether `outgoing` is no request of a session up to `session`, and no
/// query before `query_number`.
pub open spec fn sent_after<Op, Query>(
    outgoing: Outgoing<Op, Query>,
    session: OpNumber,
    query_number: QueryNumber,
) -> bool {
    match outgoing {
        Outgoing::Register => true,
        Outgoing::Request { session: of, .. } => of > session,
        Outgoing::Query { query_number: number, .. } => number >= query_number,
    }
}

proof fn send_queued_is_past<Op, Query>(
    c: ClientModel<Op, Query>,
    session: OpNumber,
    query_number: QueryNumber,
)
    requires
        is_past(c, session, query_number),
    ensures
        is_past(c.send_queued(), session, query_number),
    decreases c.queued.len(),
{
    if c.front_may_go() {
        let first = c.queued[0];
        assert(first matches Queued::Query(number, _) ==> number >= query_number);
        assert forall|i: int| 0 <= i < c.queued.skip(1).len() implies ((
        #[trigger] c.queued.skip(1)[i]) matches Queued::Query(number, _) ==> number
            >= query_number) by {
            assert(c.queued.skip(1)[i] == c.queued[i + 1]);
        }
        assert(is_past(c.send_front(), session, query_number));
        send_queued_is_past(c.send_front(), session, query_number);
    }
}

/// What is left in flight was in flight.
proof fn drop_answered_keeps_numbers<T>(in_flight: Seq<InFlight<T>>, number: usize)
    requires
        forall|i: int| 0 <= i < in_flight.len() ==> (#[trigger] in_flight[i]).number >= number,
    ensures
        forall|i: int|
            0 <= i < drop_answered(in_flight).len() ==> (#[trigger] drop_answered(
                in_flight,
            )[i]).number >= number,
        drop_answered(in_flight).len() <= in_flight.len(),
    decreases in_flight.len(),
{
    if in_flight.len() > 0 && in_flight[0].item is None {
        assert forall|i: int| 0 <= i < in_flight.skip(1).len() implies (
        #[trigger] in_flight.skip(1)[i]).number >= number by {
            assert(in_flight.skip(1)[i] == in_flight[i + 1]);
        }
        drop_answered_keeps_numbers(in_flight.skip(1), number);
    }
}

proof fn reply_is_past<Op, Query, Output>(
    c: ClientModel<Op, Query>,
    reply: Reply<Output>,
    session: OpNumber,
    query_number: QueryNumber,
)
    requires
        is_past(c, session, query_number),
    ensures
        is_past(c.on_reply(reply), session, query_number),
{
    let next = c.heard_of(reply.view_of());
    match reply {
        Reply::Registered { session: opened, .. } => {
            if c.registering is Some && opened > c.evicted {
                send_queued_is_past(
                    ClientModel { registering: None, session: Some(opened), ..next },
                    session,
                    query_number,
                );
            }
        },
        Reply::Executed { request_number, .. } => {
            let marked = mark_answered(c.requests, request_number);
            assert forall|i: int| 0 <= i < marked.len() implies (#[trigger] marked[i]).number
                >= 0 by {}
            drop_answered_keeps_numbers(marked, 0);
            send_queued_is_past(
                ClientModel { requests: drop_answered(marked), ..next },
                session,
                query_number,
            );
        },
        Reply::Queried { query_number: number, .. } => {
            let marked = mark_answered(c.queries, number);
            assert forall|i: int| 0 <= i < marked.len() implies (#[trigger] marked[i]).number
                >= query_number by {
                assert(c.queries[i].number >= query_number);
            }
            drop_answered_keeps_numbers(marked, query_number);
            send_queued_is_past(
                ClientModel { queries: drop_answered(marked), ..next },
                session,
                query_number,
            );
        },
        Reply::Evicted { .. } => {
            only_registrations_stay(c, session, query_number);
        },
    }
}

/// What is kept of what is on its way when a session is gone is its
/// registration.
proof fn only_registrations_stay<Op, Query>(
    c: ClientModel<Op, Query>,
    session: OpNumber,
    query_number: QueryNumber,
)
    ensures
        forall|i: int, gone: OpNumber|
            0 <= i < c.lose_session(gone).outbox.len() ==> sent_after(
                (#[trigger] c.lose_session(gone).outbox[i]).1,
                session,
                query_number,
            ),
{
    broadcast use vstd::seq_lib::group_filter_ensures;

}

proof fn idle_is_past<Op, Query>(
    c: ClientModel<Op, Query>,
    session: OpNumber,
    query_number: QueryNumber,
)
    requires
        is_past(c, session, query_number),
    ensures
        is_past(c.on_idle(), session, query_number),
{
    broadcast use vstd::seq_lib::group_filter_ensures;

    let now = (c.idle_periods + 1) as u64;
    let d = c.on_idle();
    let again = c.resend(now);
    let due_queries = due_items(c.queries, now);
    assert forall|i: int| 0 <= i < again.len() implies sent_after(
        #[trigger] again[i],
        session,
        query_number,
    ) by {
        if again[i] is Request {
            if c.requests.len() == 0 {
                assert(due_items(c.requests, now).len() == 0) by {
                    c.requests.lemma_filter_len(
                        |sent: InFlight<Op>| due(sent.sent, now) && sent.item is Some,
                    );
                }
            }
        } else if let Outgoing::Query { query_number: number, .. } = again[i] {
            let k = choose|k: int|
                0 <= k < due_queries.len() && (#[trigger] due_queries[k]).number == number;
            let first = again.len() - due_queries.len();
            assert(due_queries[i - first].number == number);
            assert(due_queries.contains(due_queries[i - first]));
            c.queries.lemma_filter_contains_rev(
                |sent: InFlight<Query>| due(sent.sent, now) && sent.item is Some,
                due_queries[i - first],
            );
        }
    }
    each_is_sent_after(again, c.config.size(), session, query_number);
    assert forall|i: int| 0 <= i < d.queries.len() implies (#[trigger] d.queries[i]).number
        >= query_number by {
        assert(c.queries[i].number >= query_number);
    }
}

proof fn each_is_sent_after<Op, Query>(
    outgoing: Seq<Outgoing<Op, Query>>,
    size: nat,
    session: OpNumber,
    query_number: QueryNumber,
)
    requires
        forall|i: int|
            0 <= i < outgoing.len() ==> sent_after(#[trigger] outgoing[i], session, query_number),
    ensures
        forall|i: int|
            0 <= i < each_to_all(outgoing, size).len() ==> sent_after(
                (#[trigger] each_to_all(outgoing, size)[i]).1,
                session,
                query_number,
            ),
    decreases outgoing.len(),
{
    if outgoing.len() > 0 {
        let rest = outgoing.drop_last();
        assert forall|i: int| 0 <= i < rest.len() implies sent_after(
            #[trigger] rest[i],
            session,
            query_number,
        ) by {
            assert(rest[i] == outgoing[i]);
        }
        each_is_sent_after(rest, size, session, query_number);
        assert(sent_after(outgoing[outgoing.len() - 1], session, query_number));
        let first = each_to_all(rest, size);
        assert forall|i: int| 0 <= i < each_to_all(outgoing, size).len() implies sent_after(
            (#[trigger] each_to_all(outgoing, size)[i]).1,
            session,
            query_number,
        ) by {
            if i < first.len() {
                assert(each_to_all(outgoing, size)[i] == first[i]);
            }
        }
    }
}

proof fn career_stays_past<Op, Query, Output>(
    client_id: ClientID,
    config: ConfigView,
    states: Seq<ClientModel<Op, Query>>,
    calls: Seq<Call<Op, Query, Output>>,
    a: int,
    k: int,
    session: OpNumber,
    query_number: QueryNumber,
)
    requires
        is_career(client_id, config, states, calls),
        0 <= a <= k < states.len(),
        is_past(states[a], session, query_number),
    ensures
        is_past(states[k], session, query_number),
    decreases k - a,
{
    if a < k {
        career_stays_past(client_id, config, states, calls, a, k - 1, session, query_number);
        requests_are_numbered_in_order(client_id, config, states, calls, (k - 1) as nat);
        let c = states[k - 1];
        let call = calls[k - 1];
        assert(c.takes(call));
        match call {
            Call::Reply { reply } => reply_is_past(c, reply, session, query_number),
            Call::Idle => idle_is_past(c, session, query_number),
            Call::Request { op } => {
                let d = c.on_request(op);
                assert forall|i: int| 0 <= i < d.queued.len() implies ((
                #[trigger] d.queued[i]) matches Queued::Query(number, _) ==> number
                    >= query_number) by {
                    if i < c.queued.len() {
                        assert(d.queued[i] == c.queued[i]);
                    }
                }
                assert(is_past(d, session, query_number));
            },
            Call::Query { query } => {
                let d = c.on_query(query);
                assert forall|i: int| 0 <= i < d.queued.len() implies ((
                #[trigger] d.queued[i]) matches Queued::Query(number, _) ==> number
                    >= query_number) by {
                    if i < c.queued.len() {
                        assert(d.queued[i] == c.queued[i]);
                    }
                }
                assert(is_past(d, session, query_number));
            },
            _ => {},
        }
    }
}

/// Whether a client was told of sessions in order: the one it has came after
/// the last that it lost.
proof fn session_is_new<Op, Query, Output>(
    client_id: ClientID,
    config: ConfigView,
    states: Seq<ClientModel<Op, Query>>,
    calls: Seq<Call<Op, Query, Output>>,
    k: int,
)
    requires
        is_career(client_id, config, states, calls),
        0 <= k < states.len(),
    ensures
        is_past(states[k], 0, 0),
        states[k].client_id == client_id,
    decreases k,
{
    if k > 0 {
        session_is_new(client_id, config, states, calls, k - 1);
        career_stays_past(client_id, config, states, calls, k - 1, k, 0, 0);
        let c = states[k - 1];
        assert(c.takes(calls[k - 1]));
        if let Call::Reply { reply } = calls[k - 1] {
            let next = c.heard_of(reply.view_of());
            match reply {
                Reply::Registered { session, .. } => send_queued_only_sends(
                    ClientModel { registering: None, session: Some(session), ..next },
                ),
                Reply::Executed { request_number, .. } => send_queued_only_sends(
                    ClientModel {
                        requests: drop_answered(mark_answered(c.requests, request_number)),
                        ..next
                    },
                ),
                Reply::Queried { query_number, .. } => send_queued_only_sends(
                    ClientModel {
                        queries: drop_answered(mark_answered(c.queries, query_number)),
                        ..next
                    },
                ),
                Reply::Evicted { .. } => {},
            }
        }
    }
}

/// An eviction ends all that the client had issued. It has no session left
/// and nothing in flight or queued, its next request is numbered 1 and asks
/// for a session, and queries are numbered on. In no later state is a request
/// of the session, or of an earlier one, or an earlier query, on its way or
/// completed by a reply.
pub proof fn an_eviction_ends_what_was_issued<Op, Query, Output>(
    client_id: ClientID,
    config: ConfigView,
    states: Seq<ClientModel<Op, Query>>,
    calls: Seq<Call<Op, Query, Output>>,
    a: int,
    k: int,
    session: OpNumber,
    reply: Reply<Output>,
    op: Op,
)
    requires
        is_career(client_id, config, states, calls),
        0 <= a < k < states.len(),
        states[a].evicts(calls[a]),
        states[a].session == Some(session),
    ensures
        ({
            let c = states[a + 1];
            &&& c.session is None
            &&& c.requests.len() == 0 && c.queries.len() == 0 && c.queued.len() == 0
            &&& c.next_request_number == 1
            &&& c.on_request(op).registering is Some
            &&& c.next_query_number == states[a].next_query_number
        }),
        forall|i: int|
            0 <= i < states[k].outbox.len() ==> sent_after(
                (#[trigger] states[k].outbox[i]).1,
                session,
                states[a].next_query_number,
            ),
        states[k].session matches Some(current) ==> current > session,
        reply matches Reply::Executed { session: of, .. } && of <= session
            ==> states[k].completion(reply) is None,
        reply matches Reply::Evicted { session: of, .. } && of <= session
            ==> states[k].completion(reply) is None,
        reply matches Reply::Queried { query_number, .. } && query_number
            < states[a].next_query_number ==> states[k].completion(reply) is None,
{
    session_is_new(client_id, config, states, calls, a);
    assert(states[a].takes(calls[a]));
    only_registrations_stay(
        states[a].heard_of(calls[a]->reply.view_of()),
        session,
        states[a].next_query_number,
    );
    assert(is_past(states[a + 1], session, states[a].next_query_number));
    career_stays_past(
        client_id,
        config,
        states,
        calls,
        a + 1,
        k,
        session,
        states[a].next_query_number,
    );
}

} // verus!
