use std::collections::{BTreeMap, VecDeque};
use vstd::prelude::*;
use vstd::std_specs::iter::IteratorSpec;
use super::state_machine::{accumulator_clones_exactly, clients_view, in_op_order, keyed, Op};
use super::violation::Violation;
use crate::client_table::{is_oldest, oldest_session, pair_le};
use crate::config::{Config, ConfigView};
use crate::ids::{ClientID, OpNumber, RequestNumber};
use crate::log::LogEntry;
use crate::replica::model::{keep_last, max, min};
use crate::state_machine::{ClientRecord, RecordView};

verus! {

/// What the committed log does, fed it in order: which requests execute and
/// with what result, which sessions it opens, and which it evicts. The
/// simulator feeds it as ops commit, and the properties check the replicas
/// against it.
#[derive(Debug)]
pub struct Model {
    /// Committed entries fed so far.
    pub(crate) fed: usize,
    pub(crate) value: i64,
    /// The client table after the entries fed.
    pub(crate) table: BTreeMap<ClientID, ClientRecord<i64>>,
    /// Sessions evicted, by client and session.
    pub(crate) evicted: Vec<(ClientID, OpNumber)>,
    /// The sessions registrations were answered with, by client.
    pub(crate) sessions: Vec<(ClientID, OpNumber)>,
    /// The ops executed, with their op numbers, in order.
    pub(crate) executed: Vec<(OpNumber, Op)>,
    /// The result of each request that executed, the number of requests
    /// executed up to it, by client, session, and request number, in the
    /// order they executed.
    pub(crate) results: Vec<((ClientID, OpNumber, RequestNumber), i64)>,
}

/// What a model holds.
#[verifier::ext_equal]
pub struct ModelView {
    pub fed: usize,
    pub value: i64,
    pub table: Map<ClientID, RecordView<i64>>,
    pub evicted: Seq<(ClientID, OpNumber)>,
    pub sessions: Seq<(ClientID, OpNumber)>,
    pub executed: Seq<(OpNumber, Op)>,
    pub results: Seq<((ClientID, OpNumber, RequestNumber), i64)>,
}

impl View for Model {
    type V = ModelView;

    open(crate) spec fn view(&self) -> ModelView {
        ModelView {
            fed: self.fed,
            value: self.value,
            table: clients_view(self.table@),
            evicted: self.evicted@,
            sessions: self.sessions@,
            executed: self.executed@,
            results: self.results@,
        }
    }
}

/// The result kept under `key`, the latest if there are several.
pub open spec fn result_of(
    results: Seq<((ClientID, OpNumber, RequestNumber), i64)>,
    key: (ClientID, OpNumber, RequestNumber),
) -> Option<i64>
    decreases results.len(),
{
    if results.len() == 0 {
        None
    } else if results.last().0 == key {
        Some(results.last().1)
    } else {
        result_of(results.drop_last(), key)
    }
}

impl ModelView {
    /// A model that nothing was fed to.
    pub open spec fn empty() -> Self {
        ModelView {
            fed: 0,
            value: 0,
            table: Map::empty(),
            evicted: Seq::empty(),
            sessions: Seq::empty(),
            executed: Seq::empty(),
            results: Seq::empty(),
        }
    }

    /// What feeding keeps: the ops executed are in order, and every record
    /// is that of its client.
    pub open spec fn inv(self) -> bool {
        &&& in_op_order(self.executed)
        &&& self.executed.len() > 0 ==> self.executed.last().0 <= self.fed
        &&& self.table.dom().finite()
        &&& keyed(self.table)
    }

    /// The model once `client_id` is registered at `op_number`, and its
    /// session.
    pub open spec fn register(
        self,
        config: ConfigView,
        op_number: OpNumber,
        client_id: ClientID,
    ) -> (Self, OpNumber) {
        if self.table.contains_key(client_id) {
            (self, self.table[client_id].session)
        } else {
            let room = if self.table.dom().len() >= config.clients_max {
                let evicted = oldest_session(self.table);
                ModelView {
                    evicted: self.evicted.push((evicted, self.table[evicted].session)),
                    table: self.table.remove(evicted),
                    ..self
                }
            } else {
                self
            };
            let record = RecordView {
                client_id,
                session: op_number,
                request_number: 0,
                replies: Seq::empty(),
                op_number,
            };
            (ModelView { table: room.table.insert(client_id, record), ..room }, op_number)
        }
    }

    /// The model after the next entry, and what is wrong with it, if
    /// anything is. A request executes only as its session's next one.
    pub open spec fn feed_one(self, config: ConfigView, tick: u64, entry: LogEntry<Op>) -> (
        Self,
        Option<Violation>,
    ) {
        let op_number = (self.fed + 1) as OpNumber;
        let next = ModelView { fed: op_number, ..self };
        match entry {
            LogEntry::Register { client_id } => {
                let (registered, session) = next.register(config, op_number, client_id);
                (
                    ModelView {
                        sessions: registered.sessions.push((client_id, session)),
                        ..registered
                    },
                    None,
                )
            },
            LogEntry::Request { client_id, session, request_number, answered, op } => {
                let record = self.table[client_id];
                if !self.table.contains_key(client_id) || record.session != session {
                    (next, None)
                } else if request_number != record.request_number + 1 {
                    (
                        next,
                        Some(
                            Violation::RequestOutOfOrder {
                                tick,
                                op_number,
                                client_id,
                                session,
                                request_number,
                                after: record.request_number,
                            },
                        ),
                    )
                } else {
                    let position = ((self.executed.len() + 1) as usize) as i64;
                    let kept = min(max(request_number - answered, 1), config.in_flight_max as int);
                    let updated = RecordView {
                        request_number,
                        replies: keep_last(record.replies.push(position), kept),
                        op_number,
                        ..record
                    };
                    (
                        ModelView {
                            value: op.kind.result(self.value),
                            executed: self.executed.push((op_number, op)),
                            table: self.table.insert(client_id, updated),
                            results: self.results.push(
                                ((client_id, session, request_number), position),
                            ),
                            ..next
                        },
                        None,
                    )
                }
            },
        }
    }

    /// The model after the entries of `committed` not fed yet, up to the
    /// first that something is wrong with.
    pub open spec fn feed(self, config: ConfigView, tick: u64, committed: Seq<LogEntry<Op>>) -> (
        Self,
        Option<Violation>,
    )
        decreases committed.len() - self.fed,
    {
        if self.fed >= committed.len() || committed.len() > usize::MAX {
            (self, None)
        } else {
            let (next, violation) = self.feed_one(config, tick, committed[self.fed as int]);
            if violation is Some || next.fed <= self.fed {
                (next, violation)
            } else {
                next.feed(config, tick, committed)
            }
        }
    }
}

impl Default for Model {
    fn default() -> (model: Model)
        ensures
            model@ == ModelView::empty(),
            model@.inv(),
    {
        let model = Model {
            fed: 0,
            value: 0,
            table: BTreeMap::new(),
            evicted: Vec::new(),
            sessions: Vec::new(),
            executed: Vec::new(),
            results: Vec::new(),
        };
        assert(model@.table =~= Map::empty());
        model
    }
}

/// The client whose session's latest entry executed earliest.
fn find_oldest(table: &BTreeMap<ClientID, ClientRecord<i64>>) -> (client_id: ClientID)
    requires
        clients_view(table@).dom().len() > 0,
    ensures
        client_id == oldest_session(clients_view(table@)),
        table@.contains_key(client_id),
{
    broadcast use vstd::std_specs::btree::group_btree_axioms;

    let ghost records = clients_view(table@);
    let mut oldest: ClientID = 0;
    let mut latest: OpNumber = 0;
    let mut any = false;
    for entry in iter: table.iter()
        invariant
            records == clients_view(table@),
            forall|i: int|
                0 <= i < iter.seq().len() ==> table@.contains_key(*(#[trigger] iter.seq()[i]).0)
                    && table@[*iter.seq()[i].0] == *iter.seq()[i].1,
            any <==> iter.index() > 0,
            any ==> records.contains_key(oldest) && latest == records[oldest].op_number,
            forall|i: int|
                0 <= i < iter.index() ==> pair_le(
                    (latest, oldest),
                    (
                        records[*(#[trigger] iter.seq()[i]).0].op_number,
                        *iter.seq()[i].0,
                    ),
                ),
    {
        let (id, record) = entry;
        assert(records.contains_key(*id));
        assert(records[*id] == record@);
        if !any || record.op_number < latest || (record.op_number == latest && *id < oldest) {
            oldest = *id;
            latest = record.op_number;
        }
        any = true;
    }
    proof {
        assert(records.dom() =~= table@.dom());
        assert(is_oldest(records, oldest));
        let other = oldest_session(records);
        assert(is_oldest(records, other));
        assert(records.contains_key(other));
    }
    oldest
}

impl Model {
    /// Feeds the committed entries not fed yet. A request executes only as
    /// its session's next one.
    pub fn feed(&mut self, config: &Config, tick: u64, committed: &[LogEntry<Op>]) -> (result:
        Result<(), Violation>)
        requires
            old(self)@.inv(),
            config@.wf(),
            old(self)@.fed <= committed@.len() < usize::MAX,
        ensures
            final(self)@.inv(),
            final(self)@ == old(self)@.feed(config@, tick, committed@).0,
            result == (match old(self)@.feed(config@, tick, committed@).1 {
                Some(violation) => Err(violation),
                None => Ok::<(), Violation>(()),
            }),
    {
        while self.fed < committed.len()
            invariant
                self@.inv(),
                config@.wf(),
                committed@.len() < usize::MAX,
                self@.feed(config@, tick, committed@) == old(self)@.feed(config@, tick, committed@),
            decreases committed@.len() - self.fed,
        {
            let index = self.fed;
            if let Some(violation) = self.feed_one(config, tick, &committed[index]) {
                return Err(violation);
            }
        }
        Ok(())
    }

    /// Feeds the next committed entry.
    fn feed_one(&mut self, config: &Config, tick: u64, entry: &LogEntry<Op>) -> (violation: Option<
        Violation,
    >)
        requires
            old(self)@.inv(),
            config@.wf(),
            old(self)@.fed < usize::MAX,
        ensures
            final(self)@.inv(),
            final(self)@.fed == old(self)@.fed + 1,
            (final(self)@, violation) == old(self)@.feed_one(config@, tick, *entry),
    {
        broadcast use vstd::std_specs::btree::group_btree_axioms;

        proof {
            accumulator_clones_exactly();
        }
        self.fed = self.fed + 1;
        assert(self@ == (ModelView { fed: self.fed, ..old(self)@ }));
        let op_number = self.fed;
        let (client_id, session, request_number, answered, op) = match entry {
            LogEntry::Register { client_id } => {
                let session = self.register(config, op_number, *client_id);
                self.sessions.push((*client_id, session));
                return None;
            },
            LogEntry::Request { client_id, session, request_number, answered, op } => (
                *client_id,
                *session,
                *request_number,
                *answered,
                op,
            ),
        };
        let mut replies: VecDeque<i64> = VecDeque::new();
        let mut after: RequestNumber = 0;
        match self.table.get(&client_id) {
            Some(record) => {
                if record.session != session {
                    return None;
                }
                after = record.request_number;
                replies = record.clone().replies;
            },
            None => {
                return None;
            },
        }
        if request_number == 0 || request_number - 1 != after {
            return Some(
                Violation::RequestOutOfOrder {
                    tick,
                    op_number,
                    client_id,
                    session,
                    request_number,
                    after,
                },
            );
        }
        self.value = op.kind.apply(self.value);
        self.executed.push((op_number, op.clone()));
        let position = self.executed.len() as i64;
        replies.push_back(position);
        let unanswered: usize = if request_number > answered {
            request_number - answered
        } else {
            1
        };
        let kept: usize = if unanswered <= config.in_flight_max() {
            unanswered
        } else {
            config.in_flight_max()
        };
        crate::replica::execute::keep_newest(&mut replies, kept);
        let record = ClientRecord { client_id, session, request_number, replies, op_number };
        let ghost updated = record@;
        let _ = self.table.insert(client_id, record);
        self.results.push(((client_id, session, request_number), position));
        proof {
            assert(self@.table =~= old(self)@.table.insert(client_id, updated));
            assert(self@ == old(self)@.feed_one(config@, tick, *entry).0);
            assert(self@.table.dom() =~= old(self)@.table.dom().insert(client_id));
        }
        None
    }

    /// Registers `client_id` at `op_number`, and returns its session.
    fn register(&mut self, config: &Config, op_number: OpNumber, client_id: ClientID) -> (session:
        OpNumber)
        requires
            old(self)@.inv(),
            config@.wf(),
        ensures
            final(self)@.inv(),
            (final(self)@, session) == old(self)@.register(config@, op_number, client_id),
    {
        broadcast use vstd::std_specs::btree::group_btree_axioms;

        assert(self@.table.dom() =~= self.table@.dom());
        if let Some(record) = self.table.get(&client_id) {
            return record.session;
        }
        if self.table.len() >= config.clients_max() {
            let evicted = find_oldest(&self.table);
            if let Some(record) = self.table.get(&evicted) {
                self.evicted.push((evicted, record.session));
            }
            let _ = self.table.remove(&evicted);
            assert(self@.table =~= old(self)@.table.remove(evicted));
            assert(self@.table.dom() =~= old(self)@.table.dom().remove(evicted));
        }
        let ghost room = self@;
        let record = ClientRecord {
            client_id,
            session: op_number,
            request_number: 0,
            replies: VecDeque::new(),
            op_number,
        };
        let ghost opened = record@;
        let _ = self.table.insert(client_id, record);
        proof {
            assert(opened.replies =~= Seq::empty());
            assert(self@.table =~= room.table.insert(client_id, opened));
            assert(self@.table.dom() =~= room.table.dom().insert(client_id));
        }
        op_number
    }

    /// The result of a request, if it executed.
    pub(crate) fn result(&self, key: (ClientID, OpNumber, RequestNumber)) -> (result: Option<i64>)
        ensures
            result == result_of(self@.results, key),
    {
        let mut i = self.results.len();
        assert(self.results@.take(i as int) =~= self.results@);
        while i > 0
            invariant
                i <= self.results@.len(),
                result_of(self.results@.take(i as int), key) == result_of(self.results@, key),
            decreases i,
        {
            proof {
                let all = self.results@;
                assert(all.take(i as int).drop_last() =~= all.take(i - 1));
                assert(all.take(i as int).last() == all[i - 1]);
            }
            i -= 1;
            let (k, result) = self.results[i];
            if k.0 == key.0 && k.1 == key.1 && k.2 == key.2 {
                return Some(result);
            }
        }
        None
    }
}

/// Whether `pairs` holds `pair`.
pub(crate) fn has_pair(pairs: &Vec<(usize, usize)>, pair: (usize, usize)) -> (has: bool)
    ensures
        has == pairs@.contains(pair),
{
    let mut i: usize = 0;
    while i < pairs.len()
        invariant
            i <= pairs@.len(),
            forall|j: int| 0 <= j < i ==> #[trigger] pairs@[j] != pair,
        decreases pairs@.len() - i,
    {
        if pairs[i].0 == pair.0 && pairs[i].1 == pair.1 {
            assert(pairs@[i as int] == pair);
            return true;
        }
        i += 1;
    }
    false
}

} // verus!
