//! The value store: a map from keys to string values, with an expiry
//! index ordered by absolute expiration time (unix milliseconds).
//!
//! The expiry index is a min-priority queue from the `priority-queue`
//! crate, held in the opaque [`ExpiryIndex`] behind trusted wrappers
//! whose contracts speak of [`pq_entries`], the map of queued keys to
//! their expiry times.  The store's invariant ties the two structures
//! together: every queued key is present in the value map.

use vstd::prelude::*;

verus! {

/// The expiry index: a `priority_queue::PriorityQueue` over reversed
/// times, hence a min-queue over times.  Opaque to the verifier; its
/// contents are named by [`pq_entries`] and reached only through the
/// trusted wrappers below.
#[verifier::external_body]
pub struct ExpiryIndex {
    q: priority_queue::PriorityQueue<String, core::cmp::Reverse<u64>, std::hash::RandomState>,
}

/// The keys the expiry index holds, each with its expiry time in unix
/// milliseconds.  `priority-queue` keeps one entry per item, so a map.
pub uninterp spec fn pq_entries(q: ExpiryIndex) -> Map<Seq<char>, u64>;

/// The contents of a freshly made expiry index: nothing.
pub open spec fn no_entries() -> Map<Seq<char>, u64> {
    Map::empty()
}

/// Relies on `PriorityQueue::new`: creates an empty queue.
#[verifier::external_body]
fn pq_new() -> (fresh: ExpiryIndex)
    ensures
        pq_entries(fresh) == no_entries(),
{
    ExpiryIndex { q: priority_queue::PriorityQueue::new() }
}

/// Relies on `PriorityQueue::push`: inserts the item, or updates its
/// priority when the item is already queued.
#[verifier::external_body]
fn pq_push(q: &mut ExpiryIndex, key: String, expire_ms: u64)
    ensures
        pq_entries(*final(q)) == pq_entries(*old(q)).insert(key@, expire_ms),
{
    q.q.push(key, core::cmp::Reverse(expire_ms));
}

/// Relies on `PriorityQueue::peek`: returns a pair with the greatest
/// priority, which under `Reverse` is one with the least expiry time.
#[verifier::external_body]
fn pq_peek(q: &ExpiryIndex) -> (r: Option<(String, u64)>)
    ensures
        match r {
            Some(p) => pq_entries(*q).contains_pair(p.0@, p.1) && (forall|k: Seq<char>|
                pq_entries(*q).dom().contains(k) ==> p.1 <= #[trigger] pq_entries(*q)[k]),
            None => pq_entries(*q) == no_entries(),
        },
{
    match q.q.peek() {
        Some((k, p)) => Some((k.clone(), p.0)),
        None => None,
    }
}

/// Relies on `PriorityQueue::pop`: removes and returns a pair with the
/// greatest priority — under `Reverse`, a least expiry time.
#[verifier::external_body]
fn pq_pop(q: &mut ExpiryIndex) -> (r: Option<(String, u64)>)
    ensures
        match r {
            Some(p) => pq_entries(*old(q)).contains_pair(p.0@, p.1) && (forall|k: Seq<char>|
                pq_entries(*old(q)).dom().contains(k) ==> p.1 <= #[trigger] pq_entries(*old(q))[k])
                && pq_entries(*final(q)) == pq_entries(*old(q)).remove(p.0@),
            None => pq_entries(*old(q)) == no_entries() && pq_entries(*final(q)) == pq_entries(
                *old(q),
            ),
        },
{
    match q.q.pop() {
        Some((k, p)) => Some((k, p.0)),
        None => None,
    }
}

} // verus!

// ---------------------------------------------------------------------------
// The store engine
// ---------------------------------------------------------------------------

verus! {

use crate::assoc::{assoc_map, assoc_find_idx, keys_unique, lemma_assoc_absent, lemma_assoc_found,
    lemma_assoc_push, lemma_assoc_update, lemma_assoc_remove};
use crate::rdb::RdbConf;
use crate::replication::{MasterInfo, NodeInfo, ReplicaType, SlaveInfo};
use crate::stream::{ids_increasing, StreamEntry};

/// `a + b`, stopping at the top of `u64`.
pub open spec fn spec_sat_add(a: u64, b: u64) -> u64 {
    if a + b > u64::MAX {
        u64::MAX
    } else {
        (a + b) as u64
    }
}

/// The engine: the key/value map with its expiry index, the stream
/// store, and the node's replication state.
pub struct StoreEngine {
    pub dict: Vec<(String, String)>,
    pub expiring_queue: ExpiryIndex,
    pub node_info: NodeInfo,
    pub rdb_info: RdbConf,
    pub replica_info: ReplicaType,
    pub master_info: MasterInfo,
    pub slave_info: SlaveInfo,
    pub stream_dict: Vec<(String, Vec<StreamEntry>)>,
}

impl StoreEngine {
    /// The key/value map this store holds; values are the stored
    /// `String`s, read through `@` where a contract needs their text.
    pub open spec fn dict_view(&self) -> Map<Seq<char>, String> {
        assoc_map(self.dict@)
    }

    /// The queued expiries: key to absolute expiry time (unix ms).
    pub open spec fn expiry_view(&self) -> Map<Seq<char>, u64> {
        pq_entries(self.expiring_queue)
    }

    /// The streams: key to the vector of entries in insertion order.
    pub open spec fn streams_view(&self) -> Map<Seq<char>, Vec<StreamEntry>> {
        assoc_map(self.stream_dict@)
    }

    /// The listening port.
    pub open spec fn port_view(&self) -> Seq<char> {
        self.node_info.port@
    }

    /// The store's invariant: distinct keys in both stores, every
    /// queued expiry key present in the value map, stream entries
    /// strictly increasing per key, and the master's counters summing
    /// its history.
    pub open spec fn inv(&self) -> bool {
        &&& keys_unique(self.dict@)
        &&& keys_unique(self.stream_dict@)
        &&& self.expiry_view().dom().subset_of(self.dict_view().dom())
        &&& forall|i: int|
            0 <= i < self.stream_dict@.len() ==> ids_increasing(
                (#[trigger] self.stream_dict@[i]).1@,
            ) && self.stream_dict@[i].1@.len() >= 1
        &&& self.master_info.inv()
    }

    /// A fresh engine: empty stores, master role, default node data.
    pub fn new() -> (r: StoreEngine)
        ensures
            r.inv(),
            r.dict_view() == Map::<Seq<char>, String>::empty(),
            r.expiry_view() == Map::<Seq<char>, u64>::empty(),
            r.streams_view() == Map::<Seq<char>, Vec<StreamEntry>>::empty(),
            r.replica_info is Master,
            r.master_info.master_repl_offset == 0,
            r.master_info.slave_list@.len() == 0,
            r.master_info.master_replid@ == crate::replication::MYID@,
            r.port_view() == "6379"@,
    {
        let r = StoreEngine {
            dict: Vec::new(),
            rdb_info: RdbConf::default(),
            expiring_queue: pq_new(),
            replica_info: ReplicaType::Master,
            node_info: NodeInfo::default(),
            master_info: MasterInfo::default(),
            slave_info: SlaveInfo::default(),
            stream_dict: Vec::new(),
        };
        proof {
            assert(r.dict_view() =~= Map::<Seq<char>, String>::empty());
            assert(r.streams_view() =~= Map::<Seq<char>, Vec<StreamEntry>>::empty());
        }
        r
    }

    /// Records the port this node listens on.
    pub fn set_node_info(&mut self, port: String)
        requires
            old(self).inv(),
        ensures
            final(self).inv(),
            final(self).port_view() == port@,
            final(self).dict_view() == old(self).dict_view(),
            final(self).expiry_view() == old(self).expiry_view(),
            final(self).streams_view() == old(self).streams_view(),
            final(self).master_info == old(self).master_info,
            final(self).replica_info == old(self).replica_info,
    {
        self.node_info = NodeInfo { port };
    }

    /// Adopts the slave role, following the master at `host` (a
    /// `host:port` pair; text before the first colon is the host).
    pub fn set_replica(&mut self, host: String)
        requires
            old(self).inv(),
        ensures
            final(self).inv(),
            final(self).replica_info matches ReplicaType::Slave(h) && h@ == host@,
            final(self).slave_info.handshake_state is Ping,
            final(self).slave_info.slave_repl_offset == 0,
            final(self).dict_view() == old(self).dict_view(),
            final(self).expiry_view() == old(self).expiry_view(),
            final(self).streams_view() == old(self).streams_view(),
            final(self).master_info == old(self).master_info,
    {
        let b = crate::text::string_to_bytes(host.as_str());
        let n = b.len();
        let mut colon: usize = n;
        let mut i: usize = 0;
        while i < n
            invariant
                i <= b@.len(),
                n == b@.len(),
                colon <= b@.len(),
            decreases b@.len() - i,
        {
            if b[i] == 58 && colon == n {
                colon = i;
            }
            i = i + 1;
        }
        let host_part = crate::resp::copy_range(&b, 0, colon);
        let port_part = if colon < n {
            crate::resp::copy_range(&b, colon + 1, n)
        } else {
            Vec::new()
        };
        self.slave_info = SlaveInfo {
            host: crate::text::bytes_to_string(&host_part),
            port: crate::text::bytes_to_string(&port_part),
            master_replid: "?".to_owned(),
            slave_repl_offset: 0,
            slave_ping_count: 0,
            slave_ack_count: 0,
            handshake_state: crate::replication::HandshakeState::Ping,
        };
        self.replica_info = ReplicaType::Slave(host);
    }

    /// Adopts the master role.
    pub fn set_replica_as_master(&mut self)
        requires
            old(self).inv(),
        ensures
            final(self).inv(),
            final(self).replica_info is Master,
            final(self).dict_view() == old(self).dict_view(),
            final(self).expiry_view() == old(self).expiry_view(),
            final(self).streams_view() == old(self).streams_view(),
            final(self).master_info == old(self).master_info,
    {
        self.replica_info = ReplicaType::Master;
    }

    /// The node's role.
    pub fn get_replica(&self) -> (r: ReplicaType)
        ensures
            r is Master <==> self.replica_info is Master,
            r matches ReplicaType::Slave(h) ==> self.replica_info matches ReplicaType::Slave(g)
                && h@ == g@,
    {
        match &self.replica_info {
            ReplicaType::Master => ReplicaType::Master,
            ReplicaType::Slave(h) => ReplicaType::Slave(h.clone()),
        }
    }

    /// The value under `key`, if any.
    pub fn get(&self, key: &str) -> (r: Option<String>)
        requires
            self.inv(),
        ensures
            match r {
                Some(v) => self.dict_view().dom().contains(key@) && v@ == self.dict_view()[key@]@,
                None => !self.dict_view().dom().contains(key@),
            },
    {
        let ks = key.to_owned();
        match assoc_find_idx(&self.dict, &ks) {
            Some(i) => {
                proof {
                    lemma_assoc_found(self.dict@, i as int);
                }
                Some(self.dict[i].1.clone())
            },
            None => {
                proof {
                    lemma_assoc_absent(self.dict@, key@);
                }
                None
            },
        }
    }

    /// Stores `value` under `key`, leaving any queued expiry as it is.
    pub fn set(&mut self, key: String, value: String)
        requires
            old(self).inv(),
        ensures
            final(self).inv(),
            final(self).dict_view() == old(self).dict_view().insert(key@, value),
            final(self).expiry_view() == old(self).expiry_view(),
            final(self).streams_view() == old(self).streams_view(),
            final(self).master_info == old(self).master_info,
            final(self).replica_info == old(self).replica_info,
            final(self).slave_info == old(self).slave_info,
            final(self).node_info == old(self).node_info,
            final(self).rdb_info == old(self).rdb_info,
    {
        let ghost before = self.dict@;
        match assoc_find_idx(&self.dict, &key) {
            Some(i) => {
                let p = (key, value);
                proof {
                    lemma_assoc_update(before, i as int, p);
                }
                self.dict.set(i, p);
            },
            None => {
                let p = (key, value);
                proof {
                    lemma_assoc_push(before, p);
                }
                self.dict.push(p);
            },
        }
        proof {
            assert(final(self).expiry_view().dom().subset_of(final(self).dict_view().dom()));
        }
    }

    /// Stores `value` under `key` and queues the key to expire
    /// `ttl_ms` after `now_ms` (saturating at the top of the clock).
    pub fn set_with_expire(&mut self, key: String, value: String, ttl_ms: u64, now_ms: u64)
        requires
            old(self).inv(),
        ensures
            final(self).inv(),
            final(self).dict_view() == old(self).dict_view().insert(key@, value),
            final(self).expiry_view() == old(self).expiry_view().insert(
                key@,
                spec_sat_add(now_ms, ttl_ms),
            ),
            final(self).streams_view() == old(self).streams_view(),
            final(self).master_info == old(self).master_info,
            final(self).replica_info == old(self).replica_info,
            final(self).slave_info == old(self).slave_info,
            final(self).node_info == old(self).node_info,
            final(self).rdb_info == old(self).rdb_info,
    {
        let expire_at = now_ms.saturating_add(ttl_ms);
        let key2 = key.clone();
        self.set(key, value);
        pq_push(&mut self.expiring_queue, key2, expire_at);
        proof {
            assert(final(self).expiry_view().dom().subset_of(final(self).dict_view().dom()));
        }
    }

    /// Stores `value` under `key` with an absolute expiry time, as
    /// the snapshot loader replays records.
    pub fn set_with_expire_at(&mut self, key: String, value: String, expire_at_ms: u64)
        requires
            old(self).inv(),
        ensures
            final(self).inv(),
            final(self).dict_view() == old(self).dict_view().insert(key@, value),
            final(self).expiry_view() == old(self).expiry_view().insert(key@, expire_at_ms),
            final(self).streams_view() == old(self).streams_view(),
            final(self).master_info == old(self).master_info,
            final(self).replica_info == old(self).replica_info,
            final(self).slave_info == old(self).slave_info,
            final(self).node_info == old(self).node_info,
            final(self).rdb_info == old(self).rdb_info,
    {
        let key2 = key.clone();
        self.set(key, value);
        pq_push(&mut self.expiring_queue, key2, expire_at_ms);
        proof {
            assert(final(self).expiry_view().dom().subset_of(final(self).dict_view().dom()));
        }
    }

    /// Every key currently stored, in the store's own order.
    pub fn get_keys(&self) -> (r: Vec<String>)
        requires
            self.inv(),
        ensures
            r@.len() == self.key_seq().len(),
            forall|i: int| 0 <= i < r@.len() ==> (#[trigger] r@[i])@ == self.key_seq()[i],
            forall|i: int|
                0 <= i < r@.len() ==> self.dict_view().dom().contains((#[trigger] r@[i])@),
    {
        let mut out: Vec<String> = Vec::new();
        let mut i: usize = 0;
        while i < self.dict.len()
            invariant
                self.inv(),
                i <= self.dict@.len(),
                out@.len() == i,
                forall|j: int| 0 <= j < i ==> (#[trigger] out@[j])@ == self.key_seq()[j],
            decreases self.dict@.len() - i,
        {
            out.push(self.dict[i].0.clone());
            i = i + 1;
        }
        proof {
            assert forall|i: int| 0 <= i < out@.len() implies self.dict_view().dom().contains(
                (#[trigger] out@[i])@,
            ) by {
                lemma_assoc_found(self.dict@, i);
            }
        }
        out
    }

    /// The keys of the store, in order.
    pub open spec fn key_seq(&self) -> Seq<Seq<char>> {
        self.dict@.map_values(|p: (String, String)| p.0@)
    }

    /// One pass of the expiry reaper at time `now_ms`: if the earliest
    /// queued expiry is due, that key leaves both the queue and the
    /// value map; a key is never reaped before its time.
    pub fn reap_step(&mut self, now_ms: u64) -> (progressed: bool)
        requires
            old(self).inv(),
        ensures
            final(self).inv(),
            final(self).streams_view() == old(self).streams_view(),
            final(self).master_info == old(self).master_info,
            final(self).replica_info == old(self).replica_info,
            progressed ==> (exists|k: Seq<char>|
                old(self).expiry_view().dom().contains(k) && old(self).expiry_view()[k] <= now_ms
                    && final(self).expiry_view() == old(self).expiry_view().remove(k)
                    && final(self).dict_view() == old(self).dict_view().remove(k)),
            !progressed ==> *final(self) == *old(self) && (forall|k: Seq<char>|
                old(self).expiry_view().dom().contains(k) ==> old(self).expiry_view()[k]
                    > now_ms),
    {
        match pq_peek(&self.expiring_queue) {
            None => false,
            Some(head) => {
                if head.1 > now_ms {
                    proof {
                        assert forall|k: Seq<char>| old(self).expiry_view().dom().contains(
                            k,
                        ) implies old(self).expiry_view()[k] > now_ms by {
                            assert(head.1 <= old(self).expiry_view()[k]);
                        }
                    }
                    false
                } else {
                    match pq_pop(&mut self.expiring_queue) {
                        None => false,  // unreachable: the queue was nonempty
                        Some(gone) => {
                            let ghost k = gone.0@;
                            proof {
                                assert(gone.1 <= head.1);
                            }
                            match assoc_find_idx(&self.dict, &gone.0) {
                                Some(i) => {
                                    proof {
                                        lemma_assoc_remove(self.dict@, i as int);
                                    }
                                    self.dict.remove(i);
                                    proof {
                                        assert(final(self).dict_view() =~= old(self).dict_view().remove(k));
                                        assert(final(self).expiry_view().dom().subset_of(
                                            final(self).dict_view().dom(),
                                        ));
                                    }
                                    true
                                },
                                None => {
                                    // the invariant puts every queued key in
                                    // the map
                                    proof {
                                        lemma_assoc_absent(self.dict@, k);
                                        assert(false);
                                    }
                                    true
                                },
                            }
                        },
                    }
                }
            },
        }
    }
}

impl Default for StoreEngine {
    /// A fresh engine, as [`StoreEngine::new`] makes it.
    fn default() -> (r: StoreEngine)
        ensures
            r.inv(),
            r.replica_info is Master,
    {
        StoreEngine::new()
    }
}

} // verus!

verus! {

impl StoreEngine {
    /// The stored text under each key: the value map, read as text.
    pub open spec fn kv_text(&self) -> Map<Seq<char>, Seq<char>> {
        self.dict_view().map_values(|v: String| v@)
    }
}

/// Storing the same value twice leaves exactly the single entry the
/// first store left: the second store changes nothing.
pub proof fn lemma_set_idempotent(m: Map<Seq<char>, Seq<char>>, k: Seq<char>, v: Seq<char>)
    ensures
        m.insert(k, v).insert(k, v) == m.insert(k, v),
{
    assert(m.insert(k, v).insert(k, v) =~= m.insert(k, v));
}

} // verus!

verus! {

/// Every key the expiry index holds is present in the value map: the
/// reaper removes a key from both in one step, and stores insert into
/// the map no later than into the index.
pub proof fn lemma_expiry_keys_stored(db: StoreEngine)
    requires
        db.inv(),
    ensures
        db.expiry_view().dom().subset_of(db.dict_view().dom()),
{
}

} // verus!
