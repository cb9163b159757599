use std::collections::VecDeque;
use foldhash::fast::RandomState;
use foldhash::{HashMap, HashSet};
use vstd::prelude::*;
use crate::duplicate::exact_clone;
use crate::ids::{ClientID, OpNumber, QueryNumber, RequestNumber};
use crate::state_machine::{lists, table_as_of, table_view, ClientRecord, RecordView};

verus! {

/// The hasher state of the maps and sets of foldhash.
#[verifier::external_type_specification]
#[verifier::external_body]
pub struct ExRandomState(RandomState);

/// An empty `foldhash::HashMap`.
#[verifier::external_body]
pub(crate) fn new_map<V>() -> (table: HashMap<usize, V>)
    ensures
        table@.dom() == Set::<usize>::empty(),
{
    HashMap::default()
}

/// `foldhash::HashMap::get`: the value kept under `key`, if any.
#[verifier::external_body]
pub(crate) fn map_get<V>(table: &HashMap<usize, V>, key: usize) -> (value: Option<&V>)
    ensures
        value == (if table@.contains_key(key) {
            Some(&table@[key])
        } else {
            None
        }),
{
    table.get(&key)
}

/// `foldhash::HashMap::insert`: keeps `value` under `key`, in place of what
/// was there.
#[verifier::external_body]
pub(crate) fn map_insert<V>(table: &mut HashMap<usize, V>, key: usize, value: V)
    ensures
        final(table)@ == old(table)@.insert(key, value),
{
    table.insert(key, value);
}

/// `foldhash::HashMap::remove`: drops what is kept under `key`, and returns
/// it.
#[verifier::external_body]
pub(crate) fn map_remove<V>(table: &mut HashMap<usize, V>, key: usize) -> (value: Option<V>)
    ensures
        final(table)@ == old(table)@.remove(key),
        value == (if old(table)@.contains_key(key) {
            Some(old(table)@[key])
        } else {
            None
        }),
{
    table.remove(&key)
}

/// `foldhash::HashMap::keys`: every key once, in no particular order.
#[verifier::external_body]
pub(crate) fn map_keys<V>(table: &HashMap<usize, V>) -> (keys: Vec<usize>)
    ensures
        keys@.no_duplicates(),
        keys@.to_set() == table@.dom(),
{
    table.keys().copied().collect()
}

/// An empty `foldhash::HashSet`.
#[verifier::external_body]
pub(crate) fn new_set() -> (set: HashSet<(ClientID, QueryNumber)>)
    ensures
        set@ == Set::<(ClientID, QueryNumber)>::empty(),
{
    HashSet::default()
}

/// `foldhash::HashSet::insert`: adds `item`, and returns whether it was not
/// there.
#[verifier::external_body]
pub(crate) fn set_insert(
    set: &mut HashSet<(ClientID, QueryNumber)>,
    item: (ClientID, QueryNumber),
) -> (added: bool)
    ensures
        final(set)@ == old(set)@.insert(item),
        added == !old(set)@.contains(item),
{
    set.insert(item)
}

/// `foldhash::HashSet::remove`: drops `item`.
#[verifier::external_body]
pub(crate) fn set_remove(set: &mut HashSet<(ClientID, QueryNumber)>, item: (ClientID, QueryNumber))
    ensures
        final(set)@ == old(set)@.remove(item),
{
    set.remove(&item);
}

/// The order of pairs: by the first number, then by the second.
pub open spec fn pair_le(a: (usize, usize), b: (usize, usize)) -> bool {
    a.0 < b.0 || (a.0 == b.0 && a.1 <= b.1)
}

/// `slice::sort_unstable`: the same pairs in order.
#[verifier::external_body]
pub(crate) fn sort_pairs(pairs: &mut Vec<(usize, usize)>)
    ensures
        final(pairs)@.to_multiset() == old(pairs)@.to_multiset(),
        forall|i: int, j: int|
            0 <= i <= j < final(pairs)@.len() ==> pair_le(
                #[trigger] final(pairs)@[i],
                #[trigger] final(pairs)@[j],
            ),
{
    pairs.sort_unstable();
}

/// Sorts pairs that are all different: the result holds the same pairs, each
/// before all larger ones.
fn sort_distinct(pairs: &mut Vec<(usize, usize)>)
    requires
        old(pairs)@.no_duplicates(),
    ensures
        final(pairs)@.no_duplicates(),
        final(pairs)@.len() == old(pairs)@.len(),
        forall|pair: (usize, usize)|
            #[trigger] final(pairs)@.contains(pair) <==> old(pairs)@.contains(pair),
        forall|i: int, j: int|
            0 <= i <= j < final(pairs)@.len() ==> pair_le(
                #[trigger] final(pairs)@[i],
                #[trigger] final(pairs)@[j],
            ),
{
    let ghost before = pairs@;
    sort_pairs(pairs);
    proof {
        broadcast use vstd::seq_lib::group_to_multiset_ensures;

        before.lemma_multiset_has_no_duplicates();
        pairs@.lemma_multiset_has_no_duplicates_conv();
        assert(pairs@.len() == pairs@.to_multiset().len());
        assert(before.len() == before.to_multiset().len());
        assert forall|pair: (usize, usize)| #[trigger]
            pairs@.contains(pair) <==> before.contains(pair) by {
            assert(pairs@.to_multiset().count(pair) == before.to_multiset().count(pair));
        }
    }
}

/// What a replica knows of a client.
#[derive(Debug)]
pub struct ClientState<Output> {
    /// The client's session in the client table, from its registration's
    /// execution until its eviction.
    pub(crate) record: Option<ClientRecord<Output>>,
    /// The session and request number of the client's latest entry in the
    /// log that has not executed, request number 0 for a registration, whose
    /// session is its op number. A re-sent request or registration still in
    /// progress is not appended again.
    pub(crate) pending: Option<(OpNumber, RequestNumber)>,
}

/// What a replica knows of each client: its session in the client table, and
/// its latest entry in the log that has not executed. Every entry looks its
/// client up here, on every replica, so it is a hash map: with many clients
/// at work, the paths of a tree fall out of the cache. The keys come from
/// clients; foldhash seeds each table, costs far less than SipHash, and
/// resists chosen collisions only minimally.
#[derive(Debug)]
pub struct ClientTable<Output> {
    pub(crate) clients: HashMap<ClientID, ClientState<Output>>,
    /// The number of sessions in the client table.
    pub(crate) sessions: usize,
    /// The oldest sessions as of the last scan of the client table, by the
    /// op number of their latest executed entry, oldest first: the first
    /// whose record still holds that op number is the session whose latest
    /// entry executed earliest, since op numbers only grow. A session that
    /// executed an entry since has a later one, and gives way.
    pub(crate) eviction_candidates: VecDeque<(OpNumber, ClientID)>,
}

/// Whether client `client_id` has the session whose latest entry executed
/// earliest.
pub open spec fn is_oldest<Output>(
    records: Map<ClientID, RecordView<Output>>,
    client_id: ClientID,
) -> bool {
    &&& records.contains_key(client_id)
    &&& forall|other: ClientID| #[trigger]
        records.contains_key(other) ==> pair_le(
            (records[client_id].op_number, client_id),
            (records[other].op_number, other),
        )
}

/// The client whose session's latest entry executed earliest.
pub open spec fn oldest_session<Output>(records: Map<ClientID, RecordView<Output>>) -> ClientID {
    choose|client_id: ClientID| is_oldest(records, client_id)
}

proof fn lemma_oldest_unique<Output>(records: Map<ClientID, RecordView<Output>>, client_id: ClientID)
    requires
        is_oldest(records, client_id),
    ensures
        oldest_session(records) == client_id,
{
    let other = oldest_session(records);
    assert(is_oldest(records, other));
    assert(records.contains_key(other));
}

/// Whether `candidates` are the oldest sessions but for those that executed
/// an entry since: they are in order, and every other session is younger.
pub open spec fn candidates_wf<Output>(
    candidates: Seq<(OpNumber, ClientID)>,
    records: Map<ClientID, RecordView<Output>>,
) -> bool {
    &&& forall|i: int, j: int|
        0 <= i <= j < candidates.len() ==> pair_le(
            #[trigger] candidates[i],
            #[trigger] candidates[j],
        )
    &&& forall|client_id: ClientID, i: int|
        #![trigger records[client_id], candidates[i]]
        records.contains_key(client_id) && 0 <= i < candidates.len() && !candidates.contains(
            (records[client_id].op_number, client_id),
        ) ==> pair_le(candidates[i], (records[client_id].op_number, client_id))
}

impl<Output> ClientTable<Output> {
    /// The sessions in the client table, by client.
    pub open(crate) spec fn records(&self) -> Map<ClientID, RecordView<Output>> {
        Map::new(
            |client_id: ClientID|
                self.clients@.contains_key(client_id) && self.clients@[client_id].record is Some,
            |client_id: ClientID| self.clients@[client_id].record->0@,
        )
    }

    /// The latest entry of each client in the log that has not executed.
    pub open(crate) spec fn pending(&self) -> Map<ClientID, (OpNumber, RequestNumber)> {
        Map::new(
            |client_id: ClientID|
                self.clients@.contains_key(client_id) && self.clients@[client_id].pending is Some,
            |client_id: ClientID| self.clients@[client_id].pending->0,
        )
    }

    /// Whether the table is one after the entries up to `op_number`
    /// executed.
    pub open(crate) spec fn wf(&self, op_number: int) -> bool {
        &&& self.clients@.dom().finite()
        &&& self.records().dom().finite()
        &&& self.sessions == self.records().dom().len()
        &&& forall|client_id: ClientID| #[trigger]
            self.records().contains_key(client_id) ==> self.records()[client_id].client_id
                == client_id && self.records()[client_id].op_number <= op_number
        &&& forall|i: int|
            0 <= i < self.eviction_candidates@.len() ==> (
            #[trigger] self.eviction_candidates@[i]).0 <= op_number
        &&& candidates_wf(self.eviction_candidates@, self.records())
    }

    /// A table that knows no client.
    pub(crate) fn new() -> (table: ClientTable<Output>)
        ensures
            table.wf(0),
            table.records() == Map::<ClientID, RecordView<Output>>::empty(),
            table.pending() == Map::<ClientID, (OpNumber, RequestNumber)>::empty(),
    {
        let table = ClientTable {
            clients: new_map(),
            sessions: 0,
            eviction_candidates: VecDeque::new(),
        };
        assert(table.records() =~= Map::<ClientID, RecordView<Output>>::empty());
        assert(table.pending() =~= Map::<ClientID, (OpNumber, RequestNumber)>::empty());
        table
    }

    /// The number of sessions.
    pub(crate) fn sessions(&self, Ghost(op_number): Ghost<int>) -> (sessions: usize)
        requires
            self.wf(op_number),
        ensures
            sessions == self.records().dom().len(),
    {
        self.sessions
    }

    /// The session of `client_id`, if it has one.
    pub(crate) fn record(&self, client_id: ClientID) -> (record: Option<&ClientRecord<Output>>)
        ensures
            record is Some <==> self.records().contains_key(client_id),
            record matches Some(record) ==> record@ == self.records()[client_id],
    {
        match map_get(&self.clients, client_id) {
            Some(state) => match &state.record {
                Some(record) => Some(record),
                None => None,
            },
            None => None,
        }
    }

    /// The latest entry of `client_id` in the log that has not executed, if
    /// there is one.
    pub(crate) fn latest_pending(&self, client_id: ClientID) -> (key: Option<
        (OpNumber, RequestNumber),
    >)
        ensures
            key == (if self.pending().contains_key(client_id) {
                Some(self.pending()[client_id])
            } else {
                None
            }),
    {
        match map_get(&self.clients, client_id) {
            Some(state) => state.pending,
            None => None,
        }
    }

    /// Takes what is known of `client_id` out of the map.
    fn take(&mut self, client_id: ClientID) -> (state: ClientState<Output>)
        ensures
            final(self).clients@ == old(self).clients@.remove(client_id),
            final(self).sessions == old(self).sessions,
            final(self).eviction_candidates == old(self).eviction_candidates,
            old(self).clients@.contains_key(client_id) ==> state == old(self).clients@[client_id],
            !old(self).clients@.contains_key(client_id) ==> state.record is None && state.pending
                is None,
    {
        match map_remove(&mut self.clients, client_id) {
            Some(state) => state,
            None => ClientState { record: None, pending: None },
        }
    }

    /// Puts what is known of `client_id` in the map, unless that is nothing.
    fn put(&mut self, client_id: ClientID, state: ClientState<Output>)
        requires
            !old(self).clients@.contains_key(client_id),
        ensures
            final(self).clients@ == (if state.record is None && state.pending is None {
                old(self).clients@
            } else {
                old(self).clients@.insert(client_id, state)
            }),
            final(self).sessions == old(self).sessions,
            final(self).eviction_candidates == old(self).eviction_candidates,
    {
        if state.record.is_some() || state.pending.is_some() {
            map_insert(&mut self.clients, client_id, state);
        }
    }

    /// Notes that the latest entry of `client_id` in the log is `key`.
    pub(crate) fn set_pending(&mut self, client_id: ClientID, key: (OpNumber, RequestNumber))
        ensures
            final(self).records() == old(self).records(),
            final(self).pending() == old(self).pending().insert(client_id, key),
            forall|op_number: int| old(self).wf(op_number) ==> #[trigger] final(self).wf(op_number),
    {
        let mut state = self.take(client_id);
        state.pending = Some(key);
        self.put(client_id, state);
        assert(self.records() =~= old(self).records());
        assert(self.pending() =~= old(self).pending().insert(client_id, key));
    }

    /// Notes that entry `key` of `client_id` executes: the client has no
    /// entry left in the log if that was its latest.
    pub(crate) fn settle(&mut self, client_id: ClientID, key: (OpNumber, RequestNumber))
        ensures
            final(self).records() == old(self).records(),
            final(self).pending() == (if old(self).pending().contains_key(client_id)
                && old(self).pending()[client_id] == key {
                old(self).pending().remove(client_id)
            } else {
                old(self).pending()
            }),
            forall|op_number: int| old(self).wf(op_number) ==> #[trigger] final(self).wf(op_number),
    {
        let mut state = self.take(client_id);
        if let Some(pending) = state.pending {
            if pending.0 == key.0 && pending.1 == key.1 {
                state.pending = None;
            }
        }
        self.put(client_id, state);
        assert(self.records() =~= old(self).records());
        proof {
            let settled = if old(self).pending().contains_key(client_id)
                && old(self).pending()[client_id] == key {
                old(self).pending().remove(client_id)
            } else {
                old(self).pending()
            };
            assert(self.pending() =~= settled);
        }
    }

    /// Keeps `record`, of an entry that executed after all those before.
    pub(crate) fn put_record(&mut self, record: ClientRecord<Output>, Ghost(op_number): Ghost<int>)
        requires
            old(self).wf(op_number),
            op_number < record@.op_number,
            old(self).records().dom().len() < usize::MAX || old(self).records().contains_key(
                record.client_id,
            ),
        ensures
            final(self).wf(record@.op_number as int),
            final(self).records() == old(self).records().insert(record.client_id, record@),
            final(self).pending() == old(self).pending(),
    {
        let ghost new = record@;
        let client_id = record.client_id;
        let mut state = self.take(client_id);
        if state.record.is_none() {
            self.sessions = self.sessions + 1;
        }
        state.record = Some(record);
        self.put(client_id, state);
        assert(self.records() =~= old(self).records().insert(client_id, new));
        assert(self.pending() =~= old(self).pending());
        proof {
            assert(self.records().dom() =~= old(self).records().dom().insert(client_id));
            assert(self.clients@.dom() =~= old(self).clients@.dom().insert(client_id));
            assert forall|client: ClientID, i: int|
                #![trigger self.records()[client], self.eviction_candidates@[i]]
                self.records().contains_key(client) && 0 <= i < self.eviction_candidates@.len()
                    && !self.eviction_candidates@.contains(
                    (self.records()[client].op_number, client),
                ) implies pair_le(
                self.eviction_candidates@[i],
                (self.records()[client].op_number, client),
            ) by {
                if client != client_id {
                    assert(old(self).records()[client] == self.records()[client]);
                }
            }
        }
    }

    /// Drops the session of `client_id`.
    fn drop_record(&mut self, client_id: ClientID, Ghost(op_number): Ghost<int>)
        requires
            old(self).wf(op_number),
            old(self).records().contains_key(client_id),
        ensures
            final(self).wf(op_number),
            final(self).records() == old(self).records().remove(client_id),
            final(self).pending() == old(self).pending(),
            final(self).eviction_candidates == old(self).eviction_candidates,
    {
        let mut state = self.take(client_id);
        state.record = None;
        self.put(client_id, state);
        self.sessions = self.sessions - 1;
        assert(self.records() =~= old(self).records().remove(client_id));
        assert(self.pending() =~= old(self).pending());
        proof {
            assert(self.records().dom() =~= old(self).records().dom().remove(client_id));
            assert(self.clients@.dom().subset_of(old(self).clients@.dom()));
            vstd::set_lib::lemma_set_subset_finite(old(self).clients@.dom(), self.clients@.dom());
            assert forall|client: ClientID, i: int|
                #![trigger self.records()[client], self.eviction_candidates@[i]]
                self.records().contains_key(client) && 0 <= i < self.eviction_candidates@.len()
                    && !self.eviction_candidates@.contains(
                    (self.records()[client].op_number, client),
                ) implies pair_le(
                self.eviction_candidates@[i],
                (self.records()[client].op_number, client),
            ) by {
                assert(old(self).records()[client] == self.records()[client]);
            }
        }
    }

    /// Whether the first candidate for eviction is a session's latest entry.
    spec fn front_is_current(&self) -> bool {
        let first = self.eviction_candidates@[0];
        &&& self.eviction_candidates@.len() > 0
        &&& self.records().contains_key(first.1)
        &&& self.records()[first.1].op_number == first.0
    }

    /// Drops the first candidate for eviction, which is no session's latest
    /// entry.
    fn pop_stale(&mut self, Ghost(op_number): Ghost<int>)
        requires
            old(self).wf(op_number),
            old(self).eviction_candidates@.len() > 0,
            !old(self).front_is_current(),
        ensures
            final(self).wf(op_number),
            final(self).clients@ == old(self).clients@,
            final(self).eviction_candidates@ == old(self).eviction_candidates@.skip(1),
    {
        let ghost candidates = self.eviction_candidates@;
        let _ = self.eviction_candidates.pop_front();
        proof {
            let rest = self.eviction_candidates@;
            assert(self.records() =~= old(self).records());
            assert(rest =~= candidates.skip(1));
            assert forall|client: ClientID, i: int|
                #![trigger self.records()[client], rest[i]]
                self.records().contains_key(client) && 0 <= i < rest.len() && !rest.contains(
                    (self.records()[client].op_number, client),
                ) implies pair_le(rest[i], (self.records()[client].op_number, client)) by {
                let pair = (self.records()[client].op_number, client);
                assert(rest[i] == candidates[i + 1]);
                if candidates.contains(pair) {
                    let j = choose|j: int| 0 <= j < candidates.len() && candidates[j] == pair;
                    if j > 0 {
                        assert(rest[j - 1] == pair);
                    }
                } else {
                    assert(pair_le(candidates[i + 1], pair));
                }
            }
        }
    }

    /// Drops candidates for eviction up to the first whose record still
    /// holds its op number.
    fn drop_stale(&mut self, Ghost(op_number): Ghost<int>)
        requires
            old(self).wf(op_number),
        ensures
            final(self).wf(op_number),
            final(self).clients@ == old(self).clients@,
            final(self).eviction_candidates@.len() > 0 ==> final(self).front_is_current(),
            old(self).front_is_current() ==> final(self).eviction_candidates@ == old(
                self,
            ).eviction_candidates@,
    {
        loop
            invariant
                self.wf(op_number),
                self.clients@ == old(self).clients@,
                old(self).front_is_current() ==> self.eviction_candidates@ == old(
                    self,
                ).eviction_candidates@,
            ensures
                self.eviction_candidates@.len() > 0 ==> self.front_is_current(),
            decreases self.eviction_candidates@.len(),
        {
            if self.eviction_candidates.len() == 0 {
                break;
            }
            let (latest, client_id) = self.eviction_candidates[0];
            let current = match self.record(client_id) {
                Some(record) => record.op_number == latest,
                None => false,
            };
            assert(self.records() =~= old(self).records());
            if current {
                break;
            }
            self.pop_stale(Ghost(op_number));
        }
    }

    /// Scans the client table for the oldest sessions, a sixteenth of them
    /// and at least one, so that a scan serves many evictions.
    fn find_eviction_candidates(&mut self, Ghost(op_number): Ghost<int>)
        requires
            old(self).wf(op_number),
            old(self).records().dom().len() > 0,
        ensures
            final(self).wf(op_number),
            final(self).clients@ == old(self).clients@,
            final(self).front_is_current(),
    {
        let keys = map_keys(&self.clients);
        let mut sessions: Vec<(OpNumber, ClientID)> = Vec::new();
        let mut i: usize = 0;
        let ghost records = self.records();
        while i < keys.len()
            invariant
                *self == *old(self),
                records == self.records(),
                self.wf(op_number),
                i <= keys@.len(),
                keys@.no_duplicates(),
                keys@.to_set() == self.clients@.dom(),
                sessions@.no_duplicates(),
                forall|j: int|
                    0 <= j < sessions@.len() ==> records.contains_key(
                        (#[trigger] sessions@[j]).1,
                    ) && sessions@[j].0 == records[sessions@[j].1].op_number
                        && keys@.take(i as int).contains(sessions@[j].1),
                forall|j: int|
                    0 <= j < i && records.contains_key(#[trigger] keys@[j]) ==> sessions@.contains(
                        (records[keys@[j]].op_number, keys@[j]),
                    ),
            decreases keys@.len() - i,
        {
            let ghost before = sessions@;
            let client_id = keys[i];
            if let Some(record) = self.record(client_id) {
                proof {
                    assert(record.op_number == records[client_id].op_number);
                    if before.contains((record.op_number, client_id)) {
                        let j = choose|j: int|
                            0 <= j < before.len() && before[j] == (record.op_number, client_id);
                        assert(keys@.take(i as int).contains(before[j].1));
                        let k = choose|k: int|
                            0 <= k < i && keys@.take(i as int)[k] == client_id;
                        assert(keys@[k] == keys@[i as int]);
                        assert(false);
                    }
                }
                sessions.push((record.op_number, client_id));
                assert(sessions@[before.len() as int] == (record.op_number, client_id));
            }
            proof {
                assert(keys@.take(i + 1)[i as int] == client_id);
                assert forall|j: int|
                    0 <= j < sessions@.len() implies records.contains_key(
                    (#[trigger] sessions@[j]).1,
                ) && sessions@[j].0 == records[sessions@[j].1].op_number && keys@.take(
                    i + 1,
                ).contains(sessions@[j].1) by {
                    if j < before.len() {
                        assert(sessions@[j] == before[j]);
                        let k = choose|k: int|
                            0 <= k < keys@.take(i as int).len() && keys@.take(i as int)[k]
                                == before[j].1;
                        assert(keys@.take(i + 1)[k] == before[j].1);
                    }
                }
                assert forall|j: int|
                    0 <= j < i + 1 && records.contains_key(#[trigger] keys@[j]) implies
                    sessions@.contains((records[keys@[j]].op_number, keys@[j])) by {
                    let pair = (records[keys@[j]].op_number, keys@[j]);
                    if j < i {
                        assert(before.contains(pair));
                        let k = choose|k: int| 0 <= k < before.len() && before[k] == pair;
                        assert(sessions@[k] == pair);
                    }
                }
            }
            i += 1;
        }
        proof {
            assert forall|client_id: ClientID| #[trigger]
                records.contains_key(client_id) implies sessions@.contains(
                (records[client_id].op_number, client_id),
            ) by {
                assert(keys@.to_set().contains(client_id));
                let j = choose|j: int| 0 <= j < keys@.len() && keys@[j] == client_id;
                assert(keys@[j] == client_id);
            }
            let some = choose|client_id: ClientID| records.dom().contains(client_id);
            assert(records.contains_key(some)) by {
                if forall|c: ClientID| !records.dom().contains(c) {
                    assert(records.dom() =~= Set::empty());
                }
            }
            assert(sessions@.len() > 0);
        }
        let ghost unsorted = sessions@;
        sort_distinct(&mut sessions);
        let ghost sorted = sessions@;
        let sixteenth = sessions.len() / 16;
        let kept: usize = if sixteenth > 1 {
            sixteenth
        } else {
            1
        };
        sessions.truncate(kept);
        self.eviction_candidates = into_deque(sessions);
        proof {
            let candidates = self.eviction_candidates@;
            assert(self.records() =~= records);
            assert(candidates == sorted.take(kept as int));
            assert forall|j: int| 0 <= j < sorted.len() implies records.contains_key(
                (#[trigger] sorted[j]).1,
            ) && sorted[j].0 == records[sorted[j].1].op_number by {
                assert(sorted.contains(sorted[j]));
                assert(unsorted.contains(sorted[j]));
                let k = choose|k: int| 0 <= k < unsorted.len() && unsorted[k] == sorted[j];
                assert(unsorted[k] == sorted[j]);
            }
            assert(candidates[0] == sorted[0]);
            assert forall|client_id: ClientID, j: int|
                #![trigger records[client_id], candidates[j]]
                records.contains_key(client_id) && 0 <= j < candidates.len()
                    && !candidates.contains((records[client_id].op_number, client_id)) implies pair_le(
                candidates[j],
                (records[client_id].op_number, client_id),
            ) by {
                let pair = (records[client_id].op_number, client_id);
                assert(unsorted.contains(pair));
                assert(sorted.contains(pair));
                let k = choose|k: int| 0 <= k < sorted.len() && sorted[k] == pair;
                if k < kept {
                    assert(candidates[k] == pair);
                }
                assert(pair_le(sorted[j], sorted[k]));
            }
            assert forall|j: int| 0 <= j < candidates.len() implies (#[trigger] candidates[j]).0
                <= op_number by {
                assert(candidates[j] == sorted[j]);
            }
        }
    }

    /// Drops the session whose latest entry executed earliest, and returns
    /// its client.
    pub(crate) fn evict_oldest(&mut self, Ghost(op_number): Ghost<int>) -> (evicted: ClientID)
        requires
            old(self).wf(op_number),
            old(self).records().dom().len() > 0,
        ensures
            final(self).wf(op_number),
            evicted == oldest_session(old(self).records()),
            old(self).records().contains_key(evicted),
            final(self).records() == old(self).records().remove(evicted),
            final(self).pending() == old(self).pending(),
    {
        self.drop_stale(Ghost(op_number));
        assert(self.records() =~= old(self).records());
        if self.eviction_candidates.len() == 0 {
            self.find_eviction_candidates(Ghost(op_number));
        }
        let ghost candidates = self.eviction_candidates@;
        assert(self.records() =~= old(self).records());
        assert(self.pending() =~= old(self).pending());
        let (_, evicted) = self.eviction_candidates[0];
        proof {
            let records = self.records();
            assert forall|other: ClientID| #[trigger] records.contains_key(other) implies pair_le(
                (records[evicted].op_number, evicted),
                (records[other].op_number, other),
            ) by {
                let pair = (records[other].op_number, other);
                if candidates.contains(pair) {
                    let j = choose|j: int| 0 <= j < candidates.len() && candidates[j] == pair;
                    assert(pair_le(candidates[0], candidates[j]));
                } else {
                    assert(pair_le(candidates[0], pair));
                }
            }
            lemma_oldest_unique(records, evicted);
        }
        self.drop_record(evicted, Ghost(op_number));
        let ghost dropped = *self;
        self.pop_stale(Ghost(op_number));
        assert(self.records() =~= dropped.records());
        assert(self.pending() =~= dropped.pending());
        evicted
    }

    /// Takes the sessions of `table`, and forgets all else.
    pub(crate) fn load(
        &mut self,
        table: Vec<ClientRecord<Output>>,
        Ghost(records): Ghost<Map<ClientID, RecordView<Output>>>,
        Ghost(op_number): Ghost<OpNumber>,
    )
        requires
            lists(table_view(table@), records),
            table_as_of(records, op_number),
        ensures
            final(self).wf(op_number as int),
            final(self).records() == records,
            final(self).pending() == Map::<ClientID, (OpNumber, RequestNumber)>::empty(),
    {
        let ghost all = table@;
        let ghost views = table_view(all);
        self.clients = new_map();
        self.eviction_candidates.clear();
        self.sessions = table.len();
        assert(self.records() =~= Map::<ClientID, RecordView<Output>>::empty());
        for record in iter: table
            invariant
                iter.seq() == all,
                views == table_view(all),
                lists(views, records),
                self.sessions == all.len(),
                self.eviction_candidates@.len() == 0,
                self.clients@.dom().finite(),
                self.records().dom().finite(),
                self.records().dom().len() == iter.index(),
                forall|client_id: ClientID| #[trigger]
                    self.records().contains_key(client_id) ==> exists|i: int|
                        0 <= i < iter.index() && client_id == (#[trigger] views[i]).client_id
                            && self.records()[client_id] == views[i],
                forall|i: int|
                    0 <= i < iter.index() ==> self.records().contains_key(
                        (#[trigger] views[i]).client_id,
                    ),
                forall|client_id: ClientID| #[trigger]
                    self.clients@.contains_key(client_id) ==> self.clients@[client_id].pending
                        is None,
        {
            let ghost index = iter.index();
            let ghost before = self.records();
            let ghost new = record@;
            let client_id = record.client_id;
            map_insert(
                &mut self.clients,
                client_id,
                ClientState { record: Some(record), pending: None },
            );
            proof {
                assert(new == views[index]);
                assert(self.records() =~= before.insert(client_id, new));
                assert(!before.contains_key(client_id)) by {
                    if before.contains_key(client_id) {
                        let i = choose|i: int|
                            0 <= i < index && client_id == (#[trigger] views[i]).client_id
                                && before[client_id] == views[i];
                        assert(views[i].client_id == views[index].client_id);
                    }
                }
                assert(self.records().dom() =~= before.dom().insert(client_id));
                assert forall|client: ClientID| #[trigger]
                    self.records().contains_key(client) implies exists|i: int|
                    0 <= i < index + 1 && client == (#[trigger] views[i]).client_id
                        && self.records()[client] == views[i] by {
                    if client == client_id {
                        assert(views[index].client_id == client);
                    } else {
                        assert(before.contains_key(client));
                        let i = choose|i: int|
                            0 <= i < index && client == (#[trigger] views[i]).client_id
                                && before[client] == views[i];
                        assert(views[i].client_id == client);
                    }
                }
            }
        }
        proof {
            assert forall|client_id: ClientID| #[trigger]
                records.contains_key(client_id) implies self.records().contains_key(client_id) by {
                let i = choose|i: int| 0 <= i < views.len() && views[i] == records[client_id];
                assert(views[i].client_id == client_id);
            }
            assert(self.records() =~= records);
        }
        assert(self.pending() =~= Map::<ClientID, (OpNumber, RequestNumber)>::empty());
    }

    /// Forgets the latest entries in the log.
    pub(crate) fn clear_pending(&mut self)
        ensures
            final(self).records() == old(self).records(),
            final(self).pending() == Map::<ClientID, (OpNumber, RequestNumber)>::empty(),
            forall|op_number: int| old(self).wf(op_number) ==> #[trigger] final(self).wf(op_number),
    {
        let keys = map_keys(&self.clients);
        let mut i: usize = 0;
        while i < keys.len()
            invariant
                i <= keys@.len(),
                keys@.to_set() == old(self).clients@.dom(),
                self.sessions == old(self).sessions,
                self.eviction_candidates == old(self).eviction_candidates,
                self.records() == old(self).records(),
                self.clients@.dom().subset_of(old(self).clients@.dom()),
                forall|j: int|
                    0 <= j < i && self.clients@.contains_key(#[trigger] keys@[j])
                        ==> self.clients@[keys@[j]].pending is None,
            decreases keys@.len() - i,
        {
            let ghost before = *self;
            let client_id = keys[i];
            let mut state = self.take(client_id);
            state.pending = None;
            self.put(client_id, state);
            assert(self.records() =~= before.records());
            proof {
                assert forall|c: ClientID| self.clients@.contains_key(c) implies old(
                    self,
                ).clients@.contains_key(c) by {
                    if c == client_id {
                        assert(keys@.to_set().contains(keys@[i as int]));
                    }
                }
            }
            i += 1;
        }
        proof {
            assert forall|c: ClientID| #[trigger] self.clients@.contains_key(c) implies
                self.clients@[c].pending is None by {
                assert(keys@.to_set().contains(c));
                let j = choose|j: int| 0 <= j < keys@.len() && keys@[j] == c;
                assert(keys@[j] == c);
            }
            assert(self.pending() =~= Map::<ClientID, (OpNumber, RequestNumber)>::empty());
            if old(self).clients@.dom().finite() {
                vstd::set_lib::lemma_set_subset_finite(
                    old(self).clients@.dom(),
                    self.clients@.dom(),
                );
            }
        }
    }
}

/// Whether `table` lists `records` in client id order.
pub open spec fn lists_in_order<Output>(
    table: Seq<RecordView<Output>>,
    records: Map<ClientID, RecordView<Output>>,
) -> bool {
    &&& lists(table, records)
    &&& forall|i: int, j: int|
        0 <= i < j < table.len() ==> (#[trigger] table[i]).client_id < (
        #[trigger] table[j]).client_id
}

impl<Output: Clone> ClientTable<Output> {
    /// Copies of the sessions, in client id order.
    pub(crate) fn in_order(&self, Ghost(op_number): Ghost<int>) -> (table: Vec<
        ClientRecord<Output>,
    >)
        requires
            exact_clone::<Output>(),
            self.wf(op_number),
        ensures
            lists_in_order(table_view(table@), self.records()),
    {
        let keys = map_keys(&self.clients);
        let mut ids: Vec<(usize, usize)> = Vec::new();
        let mut i: usize = 0;
        while i < keys.len()
            invariant
                i <= keys@.len(),
                keys@.no_duplicates(),
                ids@.len() == i,
                forall|j: int| 0 <= j < i ==> #[trigger] ids@[j] == (keys@[j], 0usize),
            decreases keys@.len() - i,
        {
            ids.push((keys[i], 0));
            i += 1;
        }
        let ghost unsorted = ids@;
        proof {
            assert forall|j: int, k: int|
                0 <= j < unsorted.len() && 0 <= k < unsorted.len() && j != k implies unsorted[j]
                != unsorted[k] by {
                assert(keys@[j] != keys@[k]);
            }
        }
        sort_distinct(&mut ids);
        let ghost records = self.records();
        let mut table: Vec<ClientRecord<Output>> = Vec::new();
        let mut n: usize = 0;
        proof {
            assert forall|j: int| 0 <= j < ids@.len() implies (#[trigger] ids@[j]).1 == 0 by {
                assert(ids@.contains(ids@[j]));
                assert(unsorted.contains(ids@[j]));
            }
        }
        while n < ids.len()
            invariant
                exact_clone::<Output>(),
                self.wf(op_number),
                records == self.records(),
                n <= ids@.len(),
                ids@.no_duplicates(),
                forall|j: int| 0 <= j < ids@.len() ==> (#[trigger] ids@[j]).1 == 0,
                forall|j: int, k: int|
                    0 <= j <= k < ids@.len() ==> pair_le(#[trigger] ids@[j], #[trigger] ids@[k]),
                forall|j: int, k: int|
                    0 <= j < k < table@.len() ==> (#[trigger] table@[j]).client_id < (
                    #[trigger] table@[k]).client_id,
                forall|j: int|
                    0 <= j < table@.len() ==> records.contains_key((#[trigger] table@[j]).client_id)
                        && records[table@[j].client_id] == table@[j]@,
                forall|j: int, k: int|
                    #![trigger table@[j], ids@[k]]
                    0 <= j < table@.len() && n <= k < ids@.len() ==> table@[j].client_id < ids@[k].0,
                forall|k: int|
                    0 <= k < n && records.contains_key((#[trigger] ids@[k]).0) ==> exists|j: int|
                        0 <= j < table@.len() && (#[trigger] table@[j])@ == records[ids@[k].0],
            decreases ids@.len() - n,
        {
            let ghost before = table@;
            let ghost id = ids@[n as int].0;
            proof {
                assert forall|k: int| n < k < ids@.len() implies id < (#[trigger] ids@[k]).0 by {
                    assert(pair_le(ids@[n as int], ids@[k]));
                    assert(ids@[n as int] != ids@[k]);
                }
            }
            if let Some(record) = self.record(ids[n].0) {
                let copy = record.clone();
                table.push(copy);
                proof {
                    assert(records.contains_key(id));
                    assert(table@[before.len() as int]@ == records[id]);
                    assert forall|k: int|
                        0 <= k < n + 1 && records.contains_key((#[trigger] ids@[k]).0) implies exists|
                        j: int,
                    |
                        0 <= j < table@.len() && (#[trigger] table@[j])@ == records[ids@[k].0] by {
                        if k < n {
                            let j = choose|j: int|
                                0 <= j < before.len() && (#[trigger] before[j])@
                                    == records[ids@[k].0];
                            assert(table@[j]@ == records[ids@[k].0]);
                        }
                    }
                }
            }
            n += 1;
        }
        proof {
            let views = table_view(table@);
            assert forall|client_id: ClientID| #[trigger]
                records.contains_key(client_id) implies views.contains(records[client_id]) by {
                assert(keys@.to_set().contains(client_id));
                let j = choose|j: int| 0 <= j < keys@.len() && keys@[j] == client_id;
                assert(unsorted[j] == (client_id, 0usize));
                assert(unsorted.contains((client_id, 0usize)));
                assert(ids@.contains((client_id, 0usize)));
                let k = choose|k: int| 0 <= k < ids@.len() && ids@[k] == (client_id, 0usize);
                assert(records.contains_key(ids@[k].0));
                let m = choose|m: int|
                    0 <= m < table@.len() && (#[trigger] table@[m])@ == records[ids@[k].0];
                assert(views[m] == records[client_id]);
            }
        }
        table
    }
}

/// The items of a vector as a queue.
fn into_deque<T>(items: Vec<T>) -> (queue: VecDeque<T>)
    ensures
        queue@ == items@,
{
    let ghost all = items@;
    let mut queue: VecDeque<T> = VecDeque::new();
    for item in iter: items
        invariant
            iter.seq() == all,
            queue@ == all.take(iter.index()),
    {
        queue.push_back(item);
    }
    assert(all.take(all.len() as int) == all);
    queue
}

} // verus!
