use std::collections::VecDeque;
use vstd::prelude::*;
use crate::config::{Config, ConfigView};
use crate::duplicate::{duplicate, exact_clone};
use crate::ids::{ClientID, OpNumber, QueryNumber, ReplicaID, RequestNumber, ViewNumber};
use crate::message::{Message, MessageView, Reply};

verus! {

/// A request or query a client sent.
#[derive(Debug)]
pub struct InFlight<T> {
    pub number: usize,
    /// The request's op or the query, kept to re-send until the reply
    /// comes.
    pub item: Option<T>,
    /// The idle period in which it was last sent.
    pub sent: u64,
}

/// An operation a client queued.
#[derive(Debug)]
pub enum Queued<Op, Query> {
    Request(RequestNumber, Op),
    Query(QueryNumber, Query),
}

/// A message a client sends.
#[derive(Debug)]
pub enum Outgoing<Op, Query> {
    Register,
    Request { session: OpNumber, request_number: RequestNumber, answered: RequestNumber, op: Op },
    Query { query_number: QueryNumber, query: Query },
}

impl<Op, Query> Outgoing<Op, Query> {
    /// The message to a replica, from client `client_id`.
    pub open spec fn message<Chunk>(self, client_id: ClientID) -> MessageView<Op, Query, Chunk> {
        match self {
            Outgoing::Register => MessageView::Register { client_id },
            Outgoing::Request { session, request_number, answered, op } => MessageView::Request {
                client_id,
                session,
                request_number,
                answered,
                op,
            },
            Outgoing::Query { query_number, query } => MessageView::Query {
                client_id,
                query_number,
                query,
            },
        }
    }
}

impl<Op: Clone, Query: Clone> Clone for Outgoing<Op, Query> {
    fn clone(&self) -> (copy: Outgoing<Op, Query>)
        ensures
            exact_clone::<Op>() && exact_clone::<Query>() ==> copy == *self,
    {
        match self {
            Outgoing::Register => Outgoing::Register,
            Outgoing::Request { session, request_number, answered, op } => {
                let op_copy = op.clone();
                assert(cloned(*op, op_copy));
                Outgoing::Request {
                    session: *session,
                    request_number: *request_number,
                    answered: *answered,
                    op: op_copy,
                }
            },
            Outgoing::Query { query_number, query } => {
                let query_copy = query.clone();
                assert(cloned(*query, query_copy));
                Outgoing::Query { query_number: *query_number, query: query_copy }
            },
        }
    }
}

/// What a reply completed, see [`Client::on_reply`].
#[derive(Debug, PartialEq, Eq)]
pub enum Completion<Output> {
    /// The request executed with this result.
    Executed(RequestNumber, Output),
    /// The query executed with this result.
    Queried(QueryNumber, Output),
    /// The session was evicted. Every request and query the client had no
    /// reply to failed, and each request may or may not have executed. The
    /// client registers again with its next request, and numbers requests
    /// from 1 again. It numbers queries on, since a reply to a query names
    /// no session.
    Evicted,
}

impl<Output: Clone> Clone for Completion<Output> {
    fn clone(&self) -> (copy: Completion<Output>)
        ensures
            exact_clone::<Output>() ==> copy == *self,
    {
        match self {
            Completion::Executed(request_number, output) => {
                let copy = output.clone();
                assert(cloned(*output, copy));
                Completion::Executed(*request_number, copy)
            },
            Completion::Queried(query_number, output) => {
                let copy = output.clone();
                assert(cloned(*output, copy));
                Completion::Queried(*query_number, copy)
            },
            Completion::Evicted => Completion::Evicted,
        }
    }
}

/// Client.
///
/// A client registers for a session with its first request, then keeps up
/// to `Config::in_flight_max` requests in flight: it sends request `n` once
/// every request up to `n - in_flight_max` has its reply. Queries need no
/// session, and go in flight the same way. The client keeps its operations
/// in the order it issued them: it sends a query only once every earlier
/// request has its reply, and a request only once every earlier query has
/// its reply, so a run of requests or of queries goes out together. It
/// queues the rest. Its owner delivers what [`Client::drain`] yields, feeds
/// replies to [`Client::on_reply`], and calls [`Client::on_idle`] at a
/// regular interval so that what goes a whole interval without a reply is
/// re-sent.
#[derive(Debug)]
pub struct Client<Op, Query> {
    pub(crate) config: Config,
    pub(crate) client_id: ClientID,
    /// The latest view this client has heard of, which tells it who the
    /// primary is.
    pub(crate) view_number: ViewNumber,
    /// The session, once the registration is answered.
    pub(crate) session: Option<OpNumber>,
    /// The idle period in which the client last asked for a session, while
    /// it awaits one.
    pub(crate) registering: Option<u64>,
    /// The last session evicted. A registration answered with it or an
    /// earlier one is a late reply to an earlier registration.
    pub(crate) evicted: OpNumber,
    pub(crate) next_request_number: RequestNumber,
    /// The number the next query gets, which never repeats: a late reply
    /// to an earlier query must not answer a later one.
    pub(crate) next_query_number: QueryNumber,
    /// Requests sent, from the oldest without a reply on. Their numbers
    /// follow each other.
    pub(crate) requests: VecDeque<InFlight<Op>>,
    /// Queries sent, from the oldest without a reply on. Their numbers
    /// follow each other.
    pub(crate) queries: VecDeque<InFlight<Query>>,
    /// The number of idle periods so far.
    pub(crate) idle_periods: u64,
    /// Operations waiting for the session, for room in flight, or for the
    /// replies to earlier operations of the other kind, in order.
    pub(crate) queued: VecDeque<Queued<Op, Query>>,
    /// Messages to send, with the replica each one goes to.
    pub(crate) outbox: Vec<(ReplicaID, Outgoing<Op, Query>)>,
}

/// The state of a client.
#[verifier::ext_equal]
pub struct ClientModel<Op, Query> {
    pub config: ConfigView,
    pub client_id: ClientID,
    pub view_number: ViewNumber,
    pub session: Option<OpNumber>,
    pub registering: Option<u64>,
    pub evicted: OpNumber,
    pub next_request_number: RequestNumber,
    pub next_query_number: QueryNumber,
    pub requests: Seq<InFlight<Op>>,
    pub queries: Seq<InFlight<Query>>,
    pub idle_periods: u64,
    pub queued: Seq<Queued<Op, Query>>,
    pub outbox: Seq<(ReplicaID, Outgoing<Op, Query>)>,
}

/// The number of the oldest item in flight, or `number` if there is none.
pub open spec fn oldest<T>(in_flight: Seq<InFlight<T>>, number: usize) -> usize {
    if in_flight.len() == 0 {
        number
    } else {
        in_flight[0].number
    }
}

/// What is in flight without what has its reply at the front.
pub open spec fn drop_answered<T>(in_flight: Seq<InFlight<T>>) -> Seq<InFlight<T>>
    decreases in_flight.len(),
{
    if in_flight.len() > 0 && in_flight[0].item is None {
        drop_answered(in_flight.skip(1))
    } else {
        in_flight
    }
}

/// Whether item `number` is in flight without a reply.
pub open spec fn awaits<T>(in_flight: Seq<InFlight<T>>, number: usize) -> bool {
    exists|i: int|
        0 <= i < in_flight.len() && (#[trigger] in_flight[i]).number == number
            && in_flight[i].item is Some
}

/// What is in flight with item `number` marked as answered.
pub open spec fn mark_answered<T>(in_flight: Seq<InFlight<T>>, number: usize) -> Seq<InFlight<T>> {
    Seq::new(
        in_flight.len(),
        |i: int|
            if in_flight[i].number == number {
                InFlight { item: None, ..in_flight[i] }
            } else {
                in_flight[i]
            },
    )
}

/// Whether what is in flight is numbered in order, below `next`, starts with
/// an item that awaits its reply, and was last sent no later than `now`.
pub open spec fn in_flight_wf<T>(in_flight: Seq<InFlight<T>>, next: usize, now: u64) -> bool {
    &&& in_flight.len() > 0 ==> in_flight[0].item is Some && in_flight[0].number >= 1
    &&& forall|i: int|
        0 <= i < in_flight.len() ==> (#[trigger] in_flight[i]).number == in_flight[0].number + i
            && in_flight[i].number < next && in_flight[i].sent <= now
}

/// The number of the first request queued, or `next` if there is none.
pub open spec fn first_request<Op, Query>(
    queued: Seq<Queued<Op, Query>>,
    next: RequestNumber,
) -> RequestNumber
    decreases queued.len(),
{
    if queued.len() == 0 {
        next
    } else {
        match queued[0] {
            Queued::Request(number, _) => number,
            Queued::Query(_, _) => first_request(queued.skip(1), next),
        }
    }
}

/// The number of the first query queued, or `next` if there is none.
pub open spec fn first_query<Op, Query>(
    queued: Seq<Queued<Op, Query>>,
    next: QueryNumber,
) -> QueryNumber
    decreases queued.len(),
{
    if queued.len() == 0 {
        next
    } else {
        match queued[0] {
            Queued::Request(_, _) => first_query(queued.skip(1), next),
            Queued::Query(number, _) => number,
        }
    }
}

/// Whether the requests queued are numbered in order up to `next_request`,
/// and the queries up to `next_query`.
pub open spec fn queued_in_order<Op, Query>(
    queued: Seq<Queued<Op, Query>>,
    next_request: RequestNumber,
    next_query: QueryNumber,
) -> bool
    decreases queued.len(),
{
    queued.len() > 0 ==> {
        let rest = queued.skip(1);
        &&& match queued[0] {
            Queued::Request(number, _) => 1 <= number && number + 1 == first_request(
                rest,
                next_request,
            ),
            Queued::Query(number, _) => 1 <= number && number + 1 == first_query(rest, next_query),
        }
        &&& queued_in_order(rest, next_request, next_query)
    }
}

pub(crate) proof fn lemma_first_at_most_next<Op, Query>(
    queued: Seq<Queued<Op, Query>>,
    next_request: RequestNumber,
    next_query: QueryNumber,
)
    requires
        queued_in_order(queued, next_request, next_query),
    ensures
        first_request(queued, next_request) <= next_request,
        first_query(queued, next_query) <= next_query,
    decreases queued.len(),
{
    if queued.len() > 0 {
        lemma_first_at_most_next(queued.skip(1), next_request, next_query);
    }
}

pub(crate) proof fn lemma_queue_request<Op, Query>(
    queued: Seq<Queued<Op, Query>>,
    next_request: RequestNumber,
    next_query: QueryNumber,
    op: Op,
)
    requires
        queued_in_order(queued, next_request, next_query),
        1 <= next_request < usize::MAX,
    ensures
        ({
            let longer = queued.push(Queued::Request(next_request, op));
            let next = (next_request + 1) as RequestNumber;
            &&& queued_in_order(longer, next, next_query)
            &&& first_request(longer, next) == first_request(queued, next_request)
            &&& first_query(longer, next_query) == first_query(queued, next_query)
        }),
    decreases queued.len(),
{
    let longer = queued.push(Queued::Request(next_request, op));
    reveal_with_fuel(queued_in_order, 2);
    reveal_with_fuel(first_request, 2);
    reveal_with_fuel(first_query, 2);
    if queued.len() > 0 {
        assert(longer.skip(1) == queued.skip(1).push(Queued::Request(next_request, op)));
        lemma_queue_request(queued.skip(1), next_request, next_query, op);
    }
}

pub(crate) proof fn lemma_queue_query<Op, Query>(
    queued: Seq<Queued<Op, Query>>,
    next_request: RequestNumber,
    next_query: QueryNumber,
    query: Query,
)
    requires
        queued_in_order(queued, next_request, next_query),
        1 <= next_query < usize::MAX,
    ensures
        ({
            let longer = queued.push(Queued::Query(next_query, query));
            let next = (next_query + 1) as QueryNumber;
            &&& queued_in_order(longer, next_request, next)
            &&& first_request(longer, next_request) == first_request(queued, next_request)
            &&& first_query(longer, next) == first_query(queued, next_query)
        }),
    decreases queued.len(),
{
    let longer = queued.push(Queued::Query(next_query, query));
    reveal_with_fuel(queued_in_order, 2);
    reveal_with_fuel(first_request, 2);
    reveal_with_fuel(first_query, 2);
    if queued.len() > 0 {
        assert(longer.skip(1) == queued.skip(1).push(Queued::Query(next_query, query)));
        lemma_queue_query(queued.skip(1), next_request, next_query, query);
    }
}

/// `outgoing` to every one of `size` replicas.
pub open spec fn to_all<Op, Query>(outgoing: Outgoing<Op, Query>, size: nat) -> Seq<
    (ReplicaID, Outgoing<Op, Query>),
> {
    Seq::new(size, |i: int| (i as ReplicaID, outgoing))
}

/// Each of `outgoing` to every one of `size` replicas, in order.
pub open spec fn each_to_all<Op, Query>(
    outgoing: Seq<Outgoing<Op, Query>>,
    size: nat,
) -> Seq<(ReplicaID, Outgoing<Op, Query>)>
    decreases outgoing.len(),
{
    if outgoing.len() == 0 {
        Seq::empty()
    } else {
        each_to_all(outgoing.drop_last(), size) + to_all(outgoing.last(), size)
    }
}

/// Whether something sent in idle period `sent` has gone a whole idle
/// period without a reply by period `now`.
pub open spec fn due(sent: u64, now: u64) -> bool {
    sent + 1 < now
}

/// The items in flight that are sent again in period `now`.
pub open spec fn due_items<T>(in_flight: Seq<InFlight<T>>, now: u64) -> Seq<InFlight<T>> {
    in_flight.filter(|sent: InFlight<T>| due(sent.sent, now) && sent.item is Some)
}

/// What is in flight after sending again in period `now` what is due.
pub open spec fn resent<T>(in_flight: Seq<InFlight<T>>, now: u64) -> Seq<InFlight<T>> {
    Seq::new(
        in_flight.len(),
        |i: int|
            if due(in_flight[i].sent, now) && in_flight[i].item is Some {
                InFlight { sent: now, ..in_flight[i] }
            } else {
                in_flight[i]
            },
    )
}

impl<Op, Query> ClientModel<Op, Query> {
    /// The primary of the latest view the client has heard of.
    pub open spec fn primary(self) -> ReplicaID {
        self.config.primary_of(self.view_number)
    }

    /// Whether request `number` may be sent: no query is in flight, and
    /// every request up to `number - in_flight_max` has its reply.
    pub open spec fn request_may_go(self, number: RequestNumber) -> bool {
        self.queries.len() == 0 && number < oldest(self.requests, number)
            + self.config.in_flight_max
    }

    /// Whether query `number` may be sent: no request is in flight, and
    /// every query up to `number - in_flight_max` has its reply.
    pub open spec fn query_may_go(self, number: QueryNumber) -> bool {
        self.requests.len() == 0 && number < oldest(self.queries, number)
            + self.config.in_flight_max
    }

    /// Whether the first operation queued may be sent.
    pub open spec fn front_may_go(self) -> bool {
        self.queued.len() > 0 && match self.queued[0] {
            Queued::Request(number, _) => self.session is Some && self.request_may_go(number),
            Queued::Query(number, _) => self.query_may_go(number),
        }
    }

    /// Whether operations are in flight and queued in the order they were
    /// issued, requests and queries are not in flight together, and no more
    /// than `in_flight_max` of them are.
    pub open spec fn ordered(self) -> bool {
        &&& self.config.is_cluster()
        &&& self.next_request_number >= 1
        &&& self.next_query_number >= 1
        &&& self.next_request_number - 1 + self.config.in_flight_max <= usize::MAX
        &&& self.next_query_number - 1 + self.config.in_flight_max <= usize::MAX
        &&& in_flight_wf(self.requests, self.next_request_number, self.idle_periods)
        &&& in_flight_wf(self.queries, self.next_query_number, self.idle_periods)
        &&& self.registering matches Some(sent) ==> sent <= self.idle_periods
        &&& self.registering is Some ==> self.session is None
        &&& self.requests.len() > 0 ==> self.session is Some
        &&& self.requests.len() == 0 || self.queries.len() == 0
        &&& self.requests.len() <= self.config.in_flight_max
        &&& self.queries.len() <= self.config.in_flight_max
        &&& queued_in_order(self.queued, self.next_request_number, self.next_query_number)
        &&& self.requests.len() > 0 ==> self.requests.last().number + 1 == first_request(
            self.queued,
            self.next_request_number,
        )
        &&& self.queries.len() > 0 ==> self.queries.last().number + 1 == first_query(
            self.queued,
            self.next_query_number,
        )
    }

    /// What every step keeps: the operations are in order, and nothing
    /// waits that may go.
    pub open spec fn inv(self) -> bool {
        self.ordered() && !self.front_may_go()
    }

    /// A client that has done nothing yet.
    pub open spec fn init(client_id: ClientID, config: ConfigView) -> Self {
        ClientModel {
            config,
            client_id,
            view_number: 0,
            session: None,
            registering: None,
            evicted: 0,
            next_request_number: 1,
            next_query_number: 1,
            requests: Seq::empty(),
            queries: Seq::empty(),
            idle_periods: 0,
            queued: Seq::empty(),
            outbox: Seq::empty(),
        }
    }

    /// The client with `outgoing` on its way to the primary.
    pub open spec fn to_primary(self, outgoing: Outgoing<Op, Query>) -> Self {
        ClientModel { outbox: self.outbox.push((self.primary(), outgoing)), ..self }
    }

    /// Asks for a session, unless the client has one or has asked.
    pub open spec fn register(self) -> Self {
        if self.session is None && self.registering is None {
            ClientModel { registering: Some(self.idle_periods), ..self }.to_primary(
                Outgoing::Register,
            )
        } else {
            self
        }
    }

    /// Sends a request to the primary, naming the last request before the
    /// oldest that awaits its reply.
    pub open spec fn send_request(self, session: OpNumber, number: RequestNumber, op: Op) -> Self {
        let sent = InFlight { number, item: Some(op), sent: self.idle_periods };
        ClientModel { requests: self.requests.push(sent), ..self }.to_primary(
            Outgoing::Request {
                session,
                request_number: number,
                answered: (oldest(self.requests, number) - 1) as RequestNumber,
                op,
            },
        )
    }

    /// Sends a query to the primary.
    pub open spec fn send_query(self, number: QueryNumber, query: Query) -> Self {
        let sent = InFlight { number, item: Some(query), sent: self.idle_periods };
        ClientModel { queries: self.queries.push(sent), ..self }.to_primary(
            Outgoing::Query { query_number: number, query },
        )
    }

    /// Sends the first operation queued.
    pub open spec fn send_front(self) -> Self {
        let rest = ClientModel { queued: self.queued.skip(1), ..self };
        match self.queued[0] {
            Queued::Request(number, op) => rest.send_request(self.session->0, number, op),
            Queued::Query(number, query) => rest.send_query(number, query),
        }
    }

    /// Sends the operations queued that may go, in order.
    pub open spec fn send_queued(self) -> Self
        decreases self.queued.len(),
    {
        if self.front_may_go() {
            self.send_front().send_queued()
        } else {
            self
        }
    }

    /// The client after its owner issued `op`.
    pub open spec fn on_request(self, op: Op) -> Self {
        let number = self.next_request_number;
        let next = ClientModel { next_request_number: (number + 1) as RequestNumber, ..self };
        if self.session is Some && self.queued.len() == 0 && self.request_may_go(number) {
            next.send_request(self.session->0, number, op)
        } else {
            ClientModel { queued: self.queued.push(Queued::Request(number, op)), ..next }.register()
        }
    }

    /// The client after its owner issued `query`.
    pub open spec fn on_query(self, query: Query) -> Self {
        let number = self.next_query_number;
        let next = ClientModel { next_query_number: (number + 1) as QueryNumber, ..self };
        if self.queued.len() == 0 && self.query_may_go(number) {
            next.send_query(number, query)
        } else {
            ClientModel { queued: self.queued.push(Queued::Query(number, query)), ..next }
        }
    }

    /// Whether `reply` completes something: it is for this client, and for
    /// a request of its session or a query that awaits its reply, or tells
    /// it that its session is gone.
    pub open spec fn completes<Output>(self, reply: Reply<Output>) -> bool {
        reply.client() == self.client_id && match reply {
            Reply::Registered { .. } => false,
            Reply::Executed { session, request_number, .. } => self.session == Some(session)
                && awaits(self.requests, request_number),
            Reply::Queried { query_number, .. } => awaits(self.queries, query_number),
            Reply::Evicted { session, .. } => self.session == Some(session),
        }
    }

    /// What `reply` completes.
    pub open spec fn completion<Output>(self, reply: Reply<Output>) -> Option<Completion<Output>> {
        if self.completes(reply) {
            match reply {
                Reply::Registered { .. } => None,
                Reply::Executed { request_number, result, .. } => Some(
                    Completion::Executed(request_number, result),
                ),
                Reply::Queried { query_number, result, .. } => Some(
                    Completion::Queried(query_number, result),
                ),
                Reply::Evicted { .. } => Some(Completion::Evicted),
            }
        } else {
            None
        }
    }

    /// The client once it has heard of view `view_number`.
    pub open spec fn heard_of(self, view_number: ViewNumber) -> Self {
        if view_number > self.view_number {
            ClientModel { view_number, ..self }
        } else {
            self
        }
    }

    /// The client after its session `session` is gone: only a registration
    /// on its way is kept.
    pub open spec fn lose_session(self, session: OpNumber) -> Self {
        ClientModel {
            evicted: session,
            session: None,
            next_request_number: 1,
            requests: Seq::empty(),
            queries: Seq::empty(),
            queued: Seq::empty(),
            outbox: self.outbox.filter(
                |mail: (ReplicaID, Outgoing<Op, Query>)| mail.1 is Register,
            ),
            ..self
        }
    }

    /// The client after `reply`.
    pub open spec fn on_reply<Output>(self, reply: Reply<Output>) -> Self {
        let next = self.heard_of(reply.view_of());
        if reply.client() != self.client_id {
            self
        } else {
            match reply {
                Reply::Registered { session, .. } => if self.registering is Some && session
                    > self.evicted {
                    ClientModel { registering: None, session: Some(session), ..next }.send_queued()
                } else {
                    next
                },
                Reply::Executed { request_number, .. } => if self.completes(reply) {
                    ClientModel {
                        requests: drop_answered(mark_answered(self.requests, request_number)),
                        ..next
                    }.send_queued()
                } else {
                    next
                },
                Reply::Queried { query_number, .. } => if self.completes(reply) {
                    ClientModel {
                        queries: drop_answered(mark_answered(self.queries, query_number)),
                        ..next
                    }.send_queued()
                } else {
                    next
                },
                Reply::Evicted { session, .. } => if self.completes(reply) {
                    next.lose_session(session)
                } else {
                    next
                },
            }
        }
    }

    /// What the client sends again in idle period `now`: its registration,
    /// then its requests, then its queries, as far as each is due.
    pub open spec fn resend(self, now: u64) -> Seq<Outgoing<Op, Query>> {
        let registration = if self.registering is Some && due(self.registering->0, now) {
            seq![Outgoing::Register]
        } else {
            Seq::empty()
        };
        let requests = due_items(self.requests, now).map_values(
            |sent: InFlight<Op>|
                Outgoing::Request {
                    session: self.session->0,
                    request_number: sent.number,
                    answered: (self.requests[0].number - 1) as RequestNumber,
                    op: sent.item->0,
                },
        );
        let queries = due_items(self.queries, now).map_values(
            |sent: InFlight<Query>|
                Outgoing::Query { query_number: sent.number, query: sent.item->0 },
        );
        registration + requests + queries
    }

    /// The client after an idle period.
    pub open spec fn on_idle(self) -> Self {
        let now = (self.idle_periods + 1) as u64;
        ClientModel {
            idle_periods: now,
            registering: if self.registering is Some && due(self.registering->0, now) {
                Some(now)
            } else {
                self.registering
            },
            requests: resent(self.requests, now),
            queries: resent(self.queries, now),
            outbox: self.outbox + each_to_all(self.resend(now), self.config.size()),
            ..self
        }
    }
}

impl<Op, Query> View for Client<Op, Query> {
    type V = ClientModel<Op, Query>;

    open(crate) spec fn view(&self) -> ClientModel<Op, Query> {
        ClientModel {
            config: self.config@,
            client_id: self.client_id,
            view_number: self.view_number,
            session: self.session,
            registering: self.registering,
            evicted: self.evicted,
            next_request_number: self.next_request_number,
            next_query_number: self.next_query_number,
            requests: self.requests@,
            queries: self.queries@,
            idle_periods: self.idle_periods,
            queued: self.queued@,
            outbox: self.outbox@,
        }
    }
}

impl<Op: Clone, Query: Clone> Client<Op, Query> {
    /// A client `client_id` of the cluster `config` describes.
    pub fn new(client_id: ClientID, config: Config) -> (client: Client<Op, Query>)
        requires
            config@.is_cluster(),
        ensures
            client@.inv(),
            client@ == ClientModel::<Op, Query>::init(client_id, config@),
    {
        Client {
            config,
            client_id,
            view_number: 0,
            session: None,
            registering: None,
            evicted: 0,
            next_request_number: 1,
            next_query_number: 1,
            requests: VecDeque::new(),
            queries: VecDeque::new(),
            idle_periods: 0,
            queued: VecDeque::new(),
            outbox: Vec::new(),
        }
    }

    pub fn client_id(&self) -> (client_id: ClientID)
        ensures
            client_id == self@.client_id,
    {
        self.client_id
    }

    pub fn view_number(&self) -> (view_number: ViewNumber)
        ensures
            view_number == self@.view_number,
    {
        self.view_number
    }

    /// The client's session, once registered.
    pub fn session(&self) -> (session: Option<OpNumber>)
        ensures
            session == self@.session,
    {
        self.session
    }

    /// Sends `op` to the primary, or queues it until the client has a
    /// session, room in flight, and the replies to the queries issued
    /// before it. Returns the request number it was given.
    pub fn on_request(&mut self, op: Op) -> (request_number: RequestNumber)
        requires
            exact_clone::<Op>(),
            old(self)@.inv(),
            old(self)@.next_request_number + old(self)@.config.in_flight_max <= usize::MAX,
        ensures
            request_number == old(self)@.next_request_number,
            final(self)@ == old(self)@.on_request(op),
            final(self)@.inv(),
    {
        let request_number = self.next_request_number;
        proof {
            lemma_queue_request(self@.queued, request_number, self@.next_query_number, op);
        }
        self.next_request_number = self.next_request_number + 1;
        let sendable = self.queued.len() == 0 && self.session.is_some() && self.request_may_go(
            request_number,
        );
        match self.session {
            Some(session) if sendable => {
                self.send_request(session, request_number, op);
            },
            _ => {
                self.queued.push_back(Queued::Request(request_number, op));
                self.register();
            },
        }
        request_number
    }

    /// Sends `query` to the primary, or queues it until the client has room
    /// in flight and the replies to the requests issued before it. Returns
    /// the query number it was given.
    pub fn on_query(&mut self, query: Query) -> (query_number: QueryNumber)
        requires
            exact_clone::<Query>(),
            old(self)@.inv(),
            old(self)@.next_query_number + old(self)@.config.in_flight_max <= usize::MAX,
        ensures
            query_number == old(self)@.next_query_number,
            final(self)@ == old(self)@.on_query(query),
            final(self)@.inv(),
    {
        let query_number = self.next_query_number;
        proof {
            lemma_queue_query(self@.queued, self@.next_request_number, query_number, query);
        }
        self.next_query_number = self.next_query_number + 1;
        if self.queued.len() == 0 && self.query_may_go(query_number) {
            self.send_query(query_number, query);
        } else {
            self.queued.push_back(Queued::Query(query_number, query));
        }
        query_number
    }

    /// Asks for a session, unless the client has one or has asked. The
    /// first request does too.
    pub fn register(&mut self)
        requires
            old(self)@.inv(),
        ensures
            final(self)@ == old(self)@.register(),
            final(self)@.inv(),
    {
        if self.session.is_none() && self.registering.is_none() {
            self.registering = Some(self.idle_periods);
            let primary_id = self.config.primary_id(self.view_number);
            self.outbox.push((primary_id, Outgoing::Register));
        }
    }

    /// Sends the queued operations that may go, in order. The front of the
    /// queue waits between calls, so only a reply or a session lets any go.
    fn send_queued(&mut self)
        requires
            exact_clone::<Op>(),
            exact_clone::<Query>(),
            old(self)@.ordered(),
        ensures
            final(self)@ == old(self)@.send_queued(),
            final(self)@.inv(),
    {
        loop
            invariant
                exact_clone::<Op>(),
                exact_clone::<Query>(),
                self@.ordered(),
                self@.send_queued() == old(self)@.send_queued(),
            ensures
                self@.inv(),
                self@ == old(self)@.send_queued(),
            decreases self@.queued.len(),
        {
            if self.queued.len() == 0 {
                break;
            }
            proof {
                lemma_first_at_most_next(
                    self@.queued,
                    self@.next_request_number,
                    self@.next_query_number,
                );
                lemma_first_at_most_next(
                    self@.queued.skip(1),
                    self@.next_request_number,
                    self@.next_query_number,
                );
                assert(self@.queued.skip(1) == self@.queued.subrange(1, self@.queued.len() as int));
            }
            let may_go = match &self.queued[0] {
                Queued::Request(request_number, _) => self.session.is_some()
                    && self.request_may_go(*request_number),
                Queued::Query(query_number, _) => self.query_may_go(*query_number),
            };
            if !may_go {
                break;
            }
            let ghost before = self@;
            match self.queued.pop_front() {
                Some(Queued::Request(request_number, op)) => {
                    if let Some(session) = self.session {
                        self.send_request(session, request_number, op);
                    }
                },
                Some(Queued::Query(query_number, query)) => {
                    self.send_query(query_number, query);
                },
                None => {},
            }
            assert(self@ == before.send_front());
        }
    }

    fn request_may_go(&self, request_number: RequestNumber) -> (may_go: bool)
        requires
            oldest(self@.requests, request_number) + self@.config.in_flight_max <= usize::MAX,
        ensures
            may_go == self@.request_may_go(request_number),
    {
        let oldest = if self.requests.len() == 0 {
            request_number
        } else {
            self.requests[0].number
        };
        self.queries.len() == 0 && request_number < oldest + self.config.in_flight_max()
    }

    fn query_may_go(&self, query_number: QueryNumber) -> (may_go: bool)
        requires
            oldest(self@.queries, query_number) + self@.config.in_flight_max <= usize::MAX,
        ensures
            may_go == self@.query_may_go(query_number),
    {
        let oldest = if self.queries.len() == 0 {
            query_number
        } else {
            self.queries[0].number
        };
        self.requests.len() == 0 && query_number < oldest + self.config.in_flight_max()
    }

    /// Sends a request to the primary, and keeps its op to re-send until
    /// the reply comes.
    fn send_request(&mut self, session: OpNumber, request_number: RequestNumber, op: Op)
        requires
            exact_clone::<Op>(),
            old(self)@.config.is_cluster(),
            oldest(old(self)@.requests, request_number) >= 1,
        ensures
            final(self)@ == old(self)@.send_request(session, request_number, op),
    {
        let oldest = if self.requests.len() == 0 {
            request_number
        } else {
            self.requests[0].number
        };
        self.requests.push_back(
            InFlight {
                number: request_number,
                item: Some(duplicate(&op)),
                sent: self.idle_periods,
            },
        );
        let outgoing = Outgoing::Request { session, request_number, answered: oldest - 1, op };
        let primary_id = self.config.primary_id(self.view_number);
        self.outbox.push((primary_id, outgoing));
    }

    /// Sends a query to the primary, and keeps it to re-send until the
    /// reply comes.
    fn send_query(&mut self, query_number: QueryNumber, query: Query)
        requires
            exact_clone::<Query>(),
            old(self)@.config.is_cluster(),
        ensures
            final(self)@ == old(self)@.send_query(query_number, query),
    {
        self.queries.push_back(
            InFlight {
                number: query_number,
                item: Some(duplicate(&query)),
                sent: self.idle_periods,
            },
        );
        let outgoing = Outgoing::Query { query_number, query };
        let primary_id = self.config.primary_id(self.view_number);
        self.outbox.push((primary_id, outgoing));
    }

    /// Handles a reply to this client. Every reply tells the client the
    /// current view, and with it the primary to send to. Returns what the
    /// reply completed; a duplicate, or a reply for an earlier session,
    /// completes nothing.
    pub fn on_reply<Output>(&mut self, reply: Reply<Output>) -> (completion: Option<
        Completion<Output>,
    >)
        requires
            exact_clone::<Op>(),
            exact_clone::<Query>(),
            old(self)@.inv(),
        ensures
            completion == old(self)@.completion(reply),
            final(self)@ == old(self)@.on_reply(reply),
            final(self)@.inv(),
    {
        if reply.client_id() != self.client_id {
            return None;
        }
        let view_number = reply.view_number();
        if view_number > self.view_number {
            self.view_number = view_number;
        }
        match reply {
            Reply::Registered { session, .. } => {
                if self.registering.is_some() && session > self.evicted {
                    self.registering = None;
                    self.session = Some(session);
                    self.send_queued();
                }
                None
            },
            Reply::Executed { session, request_number, result, .. } => {
                proof {
                    lemma_drop_answered(
                        mark_answered(self@.requests, request_number),
                        self@.next_request_number,
                        self@.idle_periods,
                    );
                }
                if !self.has_session(session) || !answer(&mut self.requests, request_number) {
                    return None;
                }
                self.send_queued();
                Some(Completion::Executed(request_number, result))
            },
            Reply::Queried { query_number, result, .. } => {
                proof {
                    lemma_drop_answered(
                        mark_answered(self@.queries, query_number),
                        self@.next_query_number,
                        self@.idle_periods,
                    );
                }
                if !answer(&mut self.queries, query_number) {
                    return None;
                }
                self.send_queued();
                Some(Completion::Queried(query_number, result))
            },
            Reply::Evicted { session, .. } => {
                if !self.has_session(session) {
                    return None;
                }
                self.evicted = session;
                self.session = None;
                self.next_request_number = 1;
                self.requests.clear();
                self.queries.clear();
                self.queued.clear();
                self.keep_registrations();
                Some(Completion::Evicted)
            },
        }
    }

    /// Whether `session` is the client's session.
    fn has_session(&self, session: OpNumber) -> (has: bool)
        ensures
            has == (self@.session == Some(session)),
    {
        match self.session {
            Some(current) => current == session,
            None => false,
        }
    }

    /// Drops what is on its way but for registrations.
    fn keep_registrations(&mut self)
        ensures
            final(self)@ == (ClientModel {
                outbox: old(self)@.outbox.filter(
                    |mail: (ReplicaID, Outgoing<Op, Query>)| mail.1 is Register,
                ),
                ..old(self)@
            }),
    {
        let ghost keep = |mail: (ReplicaID, Outgoing<Op, Query>)| mail.1 is Register;
        let mut kept: Vec<(ReplicaID, Outgoing<Op, Query>)> = Vec::new();
        let mut i: usize = 0;
        proof {
            reveal(Seq::filter);
        }
        while i < self.outbox.len()
            invariant
                *self == *old(self),
                i <= self.outbox@.len(),
                keep == (|mail: (ReplicaID, Outgoing<Op, Query>)| mail.1 is Register),
                kept@ == self.outbox@.take(i as int).filter(keep),
            decreases self.outbox@.len() - i,
        {
            proof {
                reveal(Seq::filter);
                assert(self.outbox@.take(i + 1).drop_last() == self.outbox@.take(i as int));
            }
            if let Outgoing::Register = &self.outbox[i].1 {
                kept.push((self.outbox[i].0, Outgoing::Register));
            }
            i += 1;
        }
        assert(self.outbox@.take(i as int) == self.outbox@);
        self.outbox = kept;
    }

    /// Called at a regular interval. Re-sends the registration, and the
    /// requests and queries that have gone a whole interval without a
    /// reply, to every replica: the primary may have changed without this
    /// client knowing, and backups ignore clients.
    pub fn on_idle(&mut self)
        requires
            exact_clone::<Op>(),
            exact_clone::<Query>(),
            old(self)@.inv(),
            old(self)@.idle_periods < u64::MAX,
        ensures
            final(self)@ == old(self)@.on_idle(),
            final(self)@.inv(),
    {
        self.idle_periods = self.idle_periods + 1;
        let now = self.idle_periods;
        let mut resend: Vec<Outgoing<Op, Query>> = Vec::new();
        if let Some(sent) = self.registering {
            if sent + 1 < now {
                self.registering = Some(now);
                resend.push(Outgoing::Register);
            }
        }
        let requests = resend_due(&mut self.requests, now);
        if let Some(session) = self.session {
            if self.requests.len() > 0 {
                let answered: RequestNumber = self.requests[0].number - 1;
                push_requests(&mut resend, requests, session, answered);
            }
        }
        let queries = resend_due(&mut self.queries, now);
        push_queries(&mut resend, queries);
        proof {
            lemma_due_of_none::<Op>(now);
            let model = old(self)@;
            let request = |sent: InFlight<Op>|
                Outgoing::<Op, Query>::Request {
                    session: model.session->0,
                    request_number: sent.number,
                    answered: (model.requests[0].number - 1) as RequestNumber,
                    op: sent.item->0,
                };
            let query = |sent: InFlight<Query>|
                Outgoing::<Op, Query>::Query { query_number: sent.number, query: sent.item->0 };
            assert(due_items(model.requests, now).map_values(request)
                == due_pairs(model.requests, now).map_values(
                |pair: (usize, Op)|
                    Outgoing::<Op, Query>::Request {
                        session: model.session->0,
                        request_number: pair.0,
                        answered: (model.requests[0].number - 1) as RequestNumber,
                        op: pair.1,
                    },
            ));
            assert(due_items(model.queries, now).map_values(query)
                == due_pairs(model.queries, now).map_values(
                |pair: (usize, Query)|
                    Outgoing::<Op, Query>::Query { query_number: pair.0, query: pair.1 },
            ));
            assert(resend@ == model.resend(now));
        }
        self.send_to_every_replica(resend);
    }

    /// Sends each of `resend` to every replica.
    fn send_to_every_replica(&mut self, resend: Vec<Outgoing<Op, Query>>)
        requires
            exact_clone::<Op>(),
            exact_clone::<Query>(),
        ensures
            final(self)@ == (ClientModel {
                outbox: old(self)@.outbox + each_to_all(resend@, old(self)@.config.size()),
                ..old(self)@
            }),
    {
        let replica_count = self.config.size();
        let mut i: usize = 0;
        while i < resend.len()
            invariant
                exact_clone::<Op>(),
                exact_clone::<Query>(),
                i <= resend@.len(),
                replica_count == old(self)@.config.size(),
                self@ == (ClientModel {
                    outbox: old(self)@.outbox + each_to_all(
                        resend@.take(i as int),
                        replica_count as nat,
                    ),
                    ..old(self)@
                }),
            decreases resend@.len() - i,
        {
            let ghost before = self@.outbox;
            let mut replica_id: ReplicaID = 0;
            while replica_id < replica_count
                invariant
                    exact_clone::<Op>(),
                    exact_clone::<Query>(),
                    i < resend@.len(),
                    replica_id <= replica_count,
                    self@ == (ClientModel {
                        outbox: before + to_all(resend@[i as int], replica_id as nat),
                        ..old(self)@
                    }),
                decreases replica_count - replica_id,
            {
                self.outbox.push((replica_id, resend[i].clone()));
                replica_id += 1;
            }
            assert(resend@.take(i + 1).drop_last() == resend@.take(i as int));
            i += 1;
        }
        assert(resend@.take(i as int) == resend@);
    }

    /// Messages to send, with the replica each one goes to. A client sends
    /// no checkpoint chunk, so that type parameter is whatever the
    /// receiving replicas use.
    pub fn drain<Chunk>(&mut self) -> (messages: Vec<(ReplicaID, Message<Op, Query, Chunk>)>)
        ensures
            final(self)@ == (ClientModel { outbox: Seq::empty(), ..old(self)@ }),
            old(self)@.inv() ==> final(self)@.inv(),
            messages@.len() == old(self)@.outbox.len(),
            forall|i: int|
                0 <= i < messages@.len() ==> {
                    &&& (#[trigger] messages@[i]).0 == old(self)@.outbox[i].0
                    &&& messages@[i].1@ == old(self)@.outbox[i].1.message::<Chunk>(
                        old(self)@.client_id,
                    )
                },
    {
        let client_id = self.client_id;
        let mut outbox: Vec<(ReplicaID, Outgoing<Op, Query>)> = Vec::new();
        std::mem::swap(&mut outbox, &mut self.outbox);
        let mut messages: Vec<(ReplicaID, Message<Op, Query, Chunk>)> = Vec::new();
        for mail in iter: outbox
            invariant
                iter.seq() == old(self)@.outbox,
                client_id == old(self)@.client_id,
                messages@.len() == iter.index(),
                forall|i: int|
                    0 <= i < messages@.len() ==> {
                        &&& (#[trigger] messages@[i]).0 == old(self)@.outbox[i].0
                        &&& messages@[i].1@ == old(self)@.outbox[i].1.message::<Chunk>(client_id)
                    },
        {
            let (replica_id, outgoing) = mail;
            let message = match outgoing {
                Outgoing::Register => Message::Register { client_id },
                Outgoing::Request { session, request_number, answered, op } => Message::Request {
                    client_id,
                    session,
                    request_number,
                    answered,
                    op,
                },
                Outgoing::Query { query_number, query } => Message::Query {
                    client_id,
                    query_number,
                    query,
                },
            };
            messages.push((replica_id, message));
        }
        messages
    }
}

/// The number and item of each item in flight that is due.
pub open spec fn due_pairs<T>(in_flight: Seq<InFlight<T>>, now: u64) -> Seq<(usize, T)> {
    due_items(in_flight, now).map_values(|sent: InFlight<T>| (sent.number, sent.item->0))
}

proof fn lemma_due_of_none<T>(now: u64)
    ensures
        due_items(Seq::<InFlight<T>>::empty(), now) == Seq::<InFlight<T>>::empty(),
{
    reveal(Seq::filter);
}

/// Marks what is due as sent in period `now`, and returns the number of each
/// with a copy of its item.
fn resend_due<T: Clone>(in_flight: &mut VecDeque<InFlight<T>>, now: u64) -> (items: Vec<(usize, T)>)
    requires
        exact_clone::<T>(),
        forall|i: int| 0 <= i < old(in_flight)@.len() ==> (#[trigger] old(in_flight)@[i]).sent < now,
    ensures
        final(in_flight)@ == resent(old(in_flight)@, now),
        items@ == due_pairs(old(in_flight)@, now),
{
    let ghost before = in_flight@;
    let mut items: Vec<(usize, T)> = Vec::new();
    let count = in_flight.len();
    let mut i: usize = 0;
    proof {
        reveal(Seq::filter);
        assert(resent(before, now).take(0) == Seq::<InFlight<T>>::empty());
    }
    while i < count
        invariant
            exact_clone::<T>(),
            before == old(in_flight)@,
            count == before.len(),
            i <= count,
            forall|j: int| 0 <= j < before.len() ==> (#[trigger] before[j]).sent < now,
            in_flight@ == before.skip(i as int) + resent(before, now).take(i as int),
            items@ == due_pairs(before.take(i as int), now),
        decreases count - i,
    {
        proof {
            reveal(Seq::filter);
            assert(before.take(i + 1).drop_last() == before.take(i as int));
            assert(before.take(i + 1).last() == before[i as int]);
        }
        if let Some(mut sent) = in_flight.pop_front() {
            assert(sent == before[i as int]);
            if sent.sent + 1 < now {
                if let Some(item) = &sent.item {
                    items.push((sent.number, duplicate(item)));
                    sent.sent = now;
                }
            }
            assert(sent == resent(before, now)[i as int]);
            in_flight.push_back(sent);
        }
        i += 1;
    }
    assert(before.take(i as int) == before);
    items
}

fn push_requests<Op, Query>(
    resend: &mut Vec<Outgoing<Op, Query>>,
    requests: Vec<(usize, Op)>,
    session: OpNumber,
    answered: RequestNumber,
)
    ensures
        final(resend)@ == old(resend)@ + requests@.map_values(
            |pair: (usize, Op)|
                Outgoing::<Op, Query>::Request {
                    session,
                    request_number: pair.0,
                    answered,
                    op: pair.1,
                },
        ),
{
    let ghost request = |pair: (usize, Op)|
        Outgoing::<Op, Query>::Request { session, request_number: pair.0, answered, op: pair.1 };
    let ghost all = requests@;
    for pair in iter: requests
        invariant
            iter.seq() == all,
            request == (|pair: (usize, Op)|
                Outgoing::<Op, Query>::Request {
                    session,
                    request_number: pair.0,
                    answered,
                    op: pair.1,
                }),
            resend@ == old(resend)@ + all.take(iter.index()).map_values(request),
    {
        let (request_number, op) = pair;
        resend.push(Outgoing::Request { session, request_number, answered, op });
    }
    assert(all.take(all.len() as int) == all);
}

fn push_queries<Op, Query>(resend: &mut Vec<Outgoing<Op, Query>>, queries: Vec<(usize, Query)>)
    ensures
        final(resend)@ == old(resend)@ + queries@.map_values(
            |pair: (usize, Query)|
                Outgoing::<Op, Query>::Query { query_number: pair.0, query: pair.1 },
        ),
{
    let ghost query_of = |pair: (usize, Query)|
        Outgoing::<Op, Query>::Query { query_number: pair.0, query: pair.1 };
    let ghost all = queries@;
    for pair in iter: queries
        invariant
            iter.seq() == all,
            query_of == (|pair: (usize, Query)|
                Outgoing::<Op, Query>::Query { query_number: pair.0, query: pair.1 }),
            resend@ == old(resend)@ + all.take(iter.index()).map_values(query_of),
    {
        let (query_number, query) = pair;
        resend.push(Outgoing::Query { query_number, query });
    }
    assert(all.take(all.len() as int) == all);
}

pub(crate) proof fn lemma_drop_answered<T>(in_flight: Seq<InFlight<T>>, next: usize, now: u64)
    requires
        in_flight.len() > 0 ==> in_flight[0].number >= 1,
        forall|i: int|
            0 <= i < in_flight.len() ==> (#[trigger] in_flight[i]).number == in_flight[0].number + i
                && in_flight[i].number < next && in_flight[i].sent <= now,
    ensures
        in_flight_wf(drop_answered(in_flight), next, now),
        drop_answered(in_flight).len() <= in_flight.len(),
        drop_answered(in_flight).len() > 0 ==> drop_answered(in_flight).last() == in_flight.last(),
    decreases in_flight.len(),
{
    if in_flight.len() > 0 && in_flight[0].item is None {
        lemma_drop_answered(in_flight.skip(1), next, now);
    }
}

/// Takes the item numbered `number` from the requests or queries a client
/// has in flight, and drops those answered from the front. Returns whether
/// it was in flight without a reply.
fn answer<T>(in_flight: &mut VecDeque<InFlight<T>>, number: usize) -> (answered: bool)
    requires
        old(in_flight)@.len() > 0 ==> old(in_flight)@[0].item is Some,
        forall|i: int|
            0 <= i < old(in_flight)@.len() ==> (#[trigger] old(in_flight)@[i]).number
                == old(in_flight)@[0].number + i,
    ensures
        answered == awaits(old(in_flight)@, number),
        final(in_flight)@ == if answered {
            drop_answered(mark_answered(old(in_flight)@, number))
        } else {
            old(in_flight)@
        },
{
    let ghost before = in_flight@;
    if in_flight.len() == 0 {
        return false;
    }
    let oldest = in_flight[0].number;
    if number < oldest || number - oldest >= in_flight.len() {
        return false;
    }
    let index: usize = number - oldest;
    assert(before[index as int].number == number);
    if in_flight[index].item.is_none() {
        return false;
    }
    if let Some(sent) = in_flight.remove(index) {
        in_flight.insert(index, InFlight { number: sent.number, item: None, sent: sent.sent });
    }
    assert(in_flight@ == mark_answered(before, number));
    loop
        invariant
            drop_answered(in_flight@) == drop_answered(mark_answered(before, number)),
        ensures
            in_flight@ == drop_answered(mark_answered(before, number)),
        decreases in_flight@.len(),
    {
        if in_flight.len() == 0 || in_flight[0].item.is_some() {
            break;
        }
        assert(in_flight@.skip(1) == in_flight@.subrange(1, in_flight@.len() as int));
        let _ = in_flight.pop_front();
    }
    true
}

} // verus!
