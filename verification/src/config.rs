use vstd::prelude::*;
use crate::ids::{ReplicaID, ViewNumber};

verus! {

/// Configuration.
#[derive(Debug)]
pub struct Config {
    /// IDs of all replicas, which are their indexes.
    pub(crate) replicas: Vec<ReplicaID>,
    /// Idle periods a backup waits without hearing from the primary before
    /// it starts a view change, and a view change may take before the next
    /// one starts.
    pub(crate) primary_timeout: usize,
    /// The most sessions the client table holds. Registering one more
    /// evicts the session whose latest entry executed earliest.
    pub(crate) clients_max: usize,
    /// The most requests a client has in flight, and the replies the
    /// client table keeps per session to answer re-sends.
    pub(crate) in_flight_max: usize,
}

/// What a configuration says.
#[verifier::ext_equal]
pub struct ConfigView {
    pub replicas: Seq<ReplicaID>,
    pub primary_timeout: usize,
    pub clients_max: usize,
    pub in_flight_max: usize,
}

impl ConfigView {
    /// The number of replicas.
    pub open spec fn size(self) -> nat {
        self.replicas.len()
    }

    /// The primary of a view: the replicas take turns.
    pub open spec fn primary_of(self, view_number: ViewNumber) -> ReplicaID {
        (view_number as int % self.size() as int) as ReplicaID
    }

    /// A majority of the replicas.
    pub open spec fn quorum(self) -> int {
        self.size() as int / 2 + 1
    }

    /// Every replica's ID is its index, and every limit is at least one.
    pub open spec fn wf(self) -> bool {
        &&& self.size() <= usize::MAX
        &&& forall|i: int| 0 <= i < self.size() ==> #[trigger] self.replicas[i] == i
        &&& self.primary_timeout >= 1
        &&& self.clients_max >= 1
        &&& self.in_flight_max >= 1
    }

    /// Whether the configuration is one a cluster can run with.
    pub open spec fn is_cluster(self) -> bool {
        self.wf() && self.size() >= 3
    }
}

impl View for Config {
    type V = ConfigView;

    open(crate) spec fn view(&self) -> ConfigView {
        ConfigView {
            replicas: self.replicas@,
            primary_timeout: self.primary_timeout,
            clients_max: self.clients_max,
            in_flight_max: self.in_flight_max,
        }
    }
}

impl Config {
    /// A configuration with no replicas yet, and the default limits.
    pub fn new() -> (config: Config)
        ensures
            config@.wf(),
            config@ == (ConfigView {
                replicas: Seq::empty(),
                primary_timeout: 3,
                clients_max: 4096,
                in_flight_max: 16,
            }),
    {
        Config {
            replicas: Vec::new(),
            primary_timeout: 3,
            clients_max: 4096,
            in_flight_max: 16,
        }
    }

    /// IDs of all replicas.
    pub fn replicas(&self) -> (replicas: &[ReplicaID])
        ensures
            replicas@ == self@.replicas,
    {
        self.replicas.as_slice()
    }

    /// The number of replicas.
    pub(crate) fn size(&self) -> (size: usize)
        ensures
            size == self@.size(),
    {
        self.replicas.len()
    }

    /// The primary of view `view_number`.
    pub fn primary_id(&self, view_number: ViewNumber) -> (id: ReplicaID)
        requires
            self@.size() > 0,
        ensures
            id == self@.primary_of(view_number),
            id < self@.size(),
    {
        view_number % self.replicas.len()
    }

    /// Adds a replica, and returns its ID. Every ID is its own index, and
    /// the limits stay as they were.
    pub fn add_replica(&mut self) -> (id: ReplicaID)
        requires
            old(self)@.wf(),
            old(self)@.size() < usize::MAX,
        ensures
            final(self)@.wf(),
            id == old(self)@.size(),
            final(self)@.size() == id + 1,
            forall|i: int| 0 <= i < final(self)@.size() ==> #[trigger] final(self)@.replicas[i] == i,
            final(self)@ == (ConfigView {
                replicas: old(self)@.replicas.push(id),
                ..old(self)@
            }),
    {
        let id = self.replicas.len();
        self.replicas.push(id);
        id
    }

    /// The number of replicas that make a majority.
    pub fn quorum(&self) -> (quorum: usize)
        requires
            self@.wf(),
        ensures
            quorum == self@.quorum(),
    {
        self.replicas.len() / 2 + 1
    }

    pub fn primary_timeout(&self) -> (idle_periods: usize)
        ensures
            idle_periods == self@.primary_timeout,
    {
        self.primary_timeout
    }

    pub fn set_primary_timeout(&mut self, idle_periods: usize)
        requires
            idle_periods >= 1,
        ensures
            final(self)@ == (ConfigView { primary_timeout: idle_periods, ..old(self)@ }),
            old(self)@.wf() ==> final(self)@.wf(),
    {
        self.primary_timeout = idle_periods;
    }

    pub fn clients_max(&self) -> (clients: usize)
        ensures
            clients == self@.clients_max,
    {
        self.clients_max
    }

    pub fn set_clients_max(&mut self, clients: usize)
        requires
            clients >= 1,
        ensures
            final(self)@ == (ConfigView { clients_max: clients, ..old(self)@ }),
            old(self)@.wf() ==> final(self)@.wf(),
    {
        self.clients_max = clients;
    }

    pub fn in_flight_max(&self) -> (requests: usize)
        ensures
            requests == self@.in_flight_max,
    {
        self.in_flight_max
    }

    pub fn set_in_flight_max(&mut self, requests: usize)
        requires
            requests >= 1,
        ensures
            final(self)@ == (ConfigView { in_flight_max: requests, ..old(self)@ }),
            old(self)@.wf() ==> final(self)@.wf(),
    {
        self.in_flight_max = requests;
    }
}

impl Default for Config {
    fn default() -> (config: Config)
        ensures
            config@.wf(),
            config@ == (ConfigView {
                replicas: Seq::empty(),
                primary_timeout: 3,
                clients_max: 4096,
                in_flight_max: 16,
            }),
    {
        Config::new()
    }
}

impl Clone for Config {
    fn clone(&self) -> (config: Config)
        ensures
            config@ == self@,
    {
        Config {
            replicas: self.replicas.clone(),
            primary_timeout: self.primary_timeout,
            clients_max: self.clients_max,
            in_flight_max: self.in_flight_max,
        }
    }
}

/// Any two majorities of a cluster share a replica: the one that answered a
/// query, committed an op or started a view is heard in the other.
pub proof fn quorums_intersect(config: ConfigView, a: Set<ReplicaID>, b: Set<ReplicaID>)
    requires
        config.wf(),
        a.finite(),
        b.finite(),
        forall|id: ReplicaID| a.contains(id) ==> id < config.size(),
        forall|id: ReplicaID| b.contains(id) ==> id < config.size(),
        a.len() >= config.quorum(),
        b.len() >= config.quorum(),
    ensures
        exists|id: ReplicaID| a.contains(id) && b.contains(id),
{
    if forall|id: ReplicaID| !(a.contains(id) && b.contains(id)) {
        vstd::set_lib::lemma_set_disjoint_lens(a, b);
        let all = a.union(b);
        let numbers = all.map(|id: ReplicaID| id as int);
        vstd::set_lib::lemma_int_range(0, config.size() as int);
        assert(numbers.subset_of(vstd::set_lib::set_int_range(0, config.size() as int)));
        vstd::set_lib::lemma_map_size(all, numbers, |id: ReplicaID| id as int);
        vstd::set_lib::lemma_len_subset(numbers, vstd::set_lib::set_int_range(0, config.size() as int));
        assert(false);
    }
}

} // verus!
