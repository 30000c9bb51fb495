//! The master side of replication: the replica registry, the offset
//! counters behind `WAIT`, and the bookkeeping for health and ACK
//! traffic.
//!
//! All byte counters move only here.  `master_repl_offset` grows by the
//! serialized length of each accepted write and always equals the sum
//! of the recorded write lengths — the ghost `write_history`.

use vstd::prelude::*;
use crate::assoc::{assoc_find_idx, assoc_map, lemma_assoc_absent, lemma_assoc_found,
    lemma_assoc_push, lemma_assoc_update};
use crate::replication::{seq_sum, HandshakeState, MasterInfo, SlaveInfo};
use crate::store::StoreEngine;

verus! {

/// Saturating subtraction on `u64`.
pub open spec fn sat_sub(a: u64, b: u64) -> u64 {
    if a >= b {
        (a - b) as u64
    } else {
        0
    }
}

/// Saturating multiplication on `u64`, executably.
pub fn mul_sat(a: u64, b: u64) -> (r: u64)
    ensures
        r == sat_mul(a, b),
{
    match a.checked_mul(b) {
        Some(v) => v,
        None => u64::MAX,
    }
}

/// Saturating multiplication on `u64`.
pub open spec fn sat_mul(a: u64, b: u64) -> u64 {
    if a * b > u64::MAX {
        u64::MAX
    } else {
        (a * b) as u64
    }
}

/// How many of these replicas have completed the handshake.
pub open spec fn spec_psync_count(s: Seq<(String, SlaveInfo)>) -> nat
    decreases s.len(),
{
    if s.len() == 0 {
        0
    } else {
        spec_psync_count(s.drop_last()) + (if s.last().1.handshake_state is Psync {
            1nat
        } else {
            0nat
        })
    }
}

/// A replica's acknowledged offset with the master's own health
/// traffic deducted: one `PING` per ACK probe beyond the first, and
/// one `REPLCONF GETACK *` per health ping, at their fixed serialized
/// lengths.
pub open spec fn spec_effective_offset(si: SlaveInfo) -> u64 {
    sat_sub(
        si.slave_repl_offset,
        crate::store::spec_sat_add(
            sat_mul(sat_sub(si.slave_ack_count, 1), crate::replication::PING_LEN as u64),
            sat_mul(si.slave_ping_count, crate::replication::REPL_GETACK_LEN as u64),
        ),
    )
}

/// The effective offsets of the replicas in `Psync` state, in registry
/// order.
pub open spec fn spec_effective_offsets(s: Seq<(String, SlaveInfo)>) -> Seq<u64>
    decreases s.len(),
{
    if s.len() == 0 {
        Seq::empty()
    } else {
        spec_effective_offsets(s.drop_last()) + (if s.last().1.handshake_state is Psync {
            seq![spec_effective_offset(s.last().1)]
        } else {
            Seq::empty()
        })
    }
}

/// How many of the given effective offsets have reached `target`.
pub open spec fn spec_caught_up(offsets: Seq<u64>, target: u64) -> nat
    decreases offsets.len(),
{
    if offsets.len() == 0 {
        0
    } else {
        spec_caught_up(offsets.drop_last(), target) + (if offsets.last() >= target {
            1nat
        } else {
            0nat
        })
    }
}

/// The count of reached offsets never exceeds the number of offsets.
pub proof fn lemma_caught_up_bound(offsets: Seq<u64>, target: u64)
    ensures
        spec_caught_up(offsets, target) <= offsets.len(),
    decreases offsets.len(),
{
    if offsets.len() > 0 {
        lemma_caught_up_bound(offsets.drop_last(), target);
    }
}

/// No more replicas count as `Psync` than there are replicas.
pub proof fn lemma_psync_count_bound(s: Seq<(String, SlaveInfo)>)
    ensures
        spec_psync_count(s) <= s.len(),
    decreases s.len(),
{
    if s.len() > 0 {
        lemma_psync_count_bound(s.drop_last());
    }
}

/// There are as many effective offsets as `Psync` replicas.
pub proof fn lemma_effective_offsets_len(s: Seq<(String, SlaveInfo)>)
    ensures
        spec_effective_offsets(s).len() == spec_psync_count(s),
    decreases s.len(),
{
    if s.len() > 0 {
        lemma_effective_offsets_len(s.drop_last());
    }
}

/// The node's identity in a replication pair.
pub trait MasterEngine: Sized {
    /// The replication id this node advertises.
    spec fn replid(&self) -> Seq<char>;

    /// Whether this node is the master of its pair.
    spec fn role_master(&self) -> bool;

    /// The replication id, for `INFO` and `FULLRESYNC`.
    fn get_master_id(&self) -> (r: String)
        ensures
            r@ == self.replid(),
    ;

    /// Whether this node accepts writes and fans them out.
    fn is_master(&self) -> (r: bool)
        ensures
            r == self.role_master(),
    ;
}

impl MasterEngine for StoreEngine {
    open spec fn replid(&self) -> Seq<char> {
        self.master_info.master_replid@
    }

    open spec fn role_master(&self) -> bool {
        self.replica_info is Master
    }

    fn get_master_id(&self) -> (r: String) {
        self.master_info.master_replid.clone()
    }

    fn is_master(&self) -> (r: bool) {
        match &self.replica_info {
            crate::replication::ReplicaType::Master => true,
            crate::replication::ReplicaType::Slave(_) => false,
        }
    }
}

impl StoreEngine {
    /// The replica registry as a map from peer address to record.
    pub open spec fn slaves(&self) -> Map<Seq<char>, SlaveInfo> {
        assoc_map(self.master_info.slave_list@)
    }

    /// The handshake state a registration leaves a record in: it only
    /// ever advances — a step naming an earlier stage than the one
    /// already reached leaves the reached stage standing.
    pub open spec fn advanced_state(&self, host: Seq<char>, given: HandshakeState) -> HandshakeState {
        if self.slaves().dom().contains(host) && crate::replication::hs_rank(
            self.slaves()[host].handshake_state,
        ) > crate::replication::hs_rank(given) {
            self.slaves()[host].handshake_state
        } else {
            given
        }
    }

    /// On a master, records one accepted write of serialized length
    /// `offset`: the master offset grows by exactly that length and
    /// the write target for `WAIT` moves to the new offset.  On a
    /// replica this does nothing.
    pub fn add_master_offset(&mut self, offset: u64)
        requires
            old(self).inv(),
            old(self).master_info.master_repl_offset + offset <= u64::MAX,
        ensures
            final(self).inv(),
            old(self).role_master() ==> final(self).master_info.master_repl_offset == old(self).master_info.master_repl_offset + offset && final(self).master_info.last_set_offset
                == final(self).master_info.master_repl_offset && final(self).master_info.write_history@ == old(self).master_info.write_history@.push(
                offset as nat,
            ) && final(self).master_info.slave_list == old(self).master_info.slave_list && final(self).master_info.last_send_repl_offset == old(self).master_info.last_send_repl_offset,
            !old(self).role_master() ==> *final(self) == *old(self),
            final(self).dict_view() == old(self).dict_view(),
            final(self).expiry_view() == old(self).expiry_view(),
            final(self).streams_view() == old(self).streams_view(),
            final(self).replica_info == old(self).replica_info,
    {
        if !self.is_master() {
            return ;
        }
        let ghost h = self.master_info.write_history@;
        self.master_info.master_repl_offset = self.master_info.master_repl_offset + offset;
        self.master_info.write_history = Ghost(h.push(offset as nat));
        proof {
            assert(h.push(offset as nat).drop_last() =~= h);
        }
        let current = self.get_master_offset();
        self.master_info.last_set_offset = current;
    }

    /// The master's accumulated write offset; a replica reports zero.
    pub fn get_master_offset(&self) -> (r: u64)
        ensures
            r == (if self.role_master() {
                self.master_info.master_repl_offset
            } else {
                0
            }),
    {
        if !self.is_master() {
            return 0;
        }
        self.master_info.master_repl_offset
    }

    /// Moves the target offset a replica must reach for `WAIT`.
    pub fn set_last_set_offset(&mut self, offset: u64)
        requires
            old(self).inv(),
        ensures
            final(self).inv(),
            old(self).role_master() ==> *final(self) == (StoreEngine {
                master_info: (MasterInfo { last_set_offset: offset, ..old(self).master_info }),
                ..*old(self)
            }),
            !old(self).role_master() ==> *final(self) == *old(self),
    {
        if !self.is_master() {
            return ;
        }
        self.master_info.last_set_offset = offset;
    }

    /// The target offset for `WAIT`; a replica reports zero.
    pub fn get_last_set_offset(&self) -> (r: u64)
        ensures
            r == (if self.role_master() {
                self.master_info.last_set_offset
            } else {
                0
            }),
    {
        if !self.is_master() {
            return 0;
        }
        self.master_info.last_set_offset
    }

    /// Records the offset at which `REPLCONF GETACK *` last went out.
    pub fn set_last_send_offset(&mut self, offset: u64)
        requires
            old(self).inv(),
        ensures
            final(self).inv(),
            old(self).role_master() ==> *final(self) == (StoreEngine {
                master_info: (MasterInfo {
                    last_send_repl_offset: offset,
                    ..old(self).master_info
                }),
                ..*old(self)
            }),
            !old(self).role_master() ==> *final(self) == *old(self),
    {
        if !self.is_master() {
            return ;
        }
        self.master_info.last_send_repl_offset = offset;
    }

    /// The offset of the last `GETACK` broadcast; a replica reports
    /// zero.
    pub fn get_last_send_offset(&self) -> (r: u64)
        ensures
            r == (if self.role_master() {
                self.master_info.last_send_repl_offset
            } else {
                0
            }),
    {
        if !self.is_master() {
            return 0;
        }
        self.master_info.last_send_repl_offset
    }

    /// Registers the replica at `host` or advances its handshake
    /// state; the state never retreats.  A fresh record starts at the
    /// advertised port with zero counters; a known replica keeps its
    /// port, offset and counters.
    pub fn set_slave_node(&mut self, host: String, stream_port: String, state: HandshakeState)
        requires
            old(self).inv(),
        ensures
            final(self).inv(),
            final(self).slaves().dom() == old(self).slaves().dom().insert(host@),
            ({
                let rec = final(self).slaves()[host@];
                rec.handshake_state == old(self).advanced_state(host@, state) && rec.host@ == host@
                    && rec.master_replid@ == old(self).replid() && (if old(
                    self,
                ).slaves().dom().contains(host@) {
                    rec.port@ == old(self).slaves()[host@].port@ && rec.slave_repl_offset == old(self).slaves()[host@].slave_repl_offset && rec.slave_ping_count == old(self).slaves()[host@].slave_ping_count && rec.slave_ack_count == old(self).slaves()[host@].slave_ack_count
                } else {
                    rec.port@ == stream_port@ && rec.slave_repl_offset == 0
                        && rec.slave_ping_count == 0 && rec.slave_ack_count == 0
                })
            }),
            forall|k: Seq<char>|
                k != host@ && old(self).slaves().dom().contains(k) ==> final(self).slaves()[k]
                    == old(self).slaves()[k],
            final(self).dict_view() == old(self).dict_view(),
            final(self).expiry_view() == old(self).expiry_view(),
            final(self).streams_view() == old(self).streams_view(),
            final(self).replica_info == old(self).replica_info,
            final(self).master_info.master_repl_offset == old(self).master_info.master_repl_offset,
            final(self).master_info.last_set_offset == old(self).master_info.last_set_offset,
            final(self).master_info.last_send_repl_offset == old(self).master_info.last_send_repl_offset,
            final(self).master_info.write_history == old(self).master_info.write_history,
    {
        let replid = self.get_master_id();
        let host_copy = host.clone();
        let mut rec = SlaveInfo {
            host,
            port: stream_port,
            master_replid: replid,
            slave_repl_offset: 0,
            slave_ping_count: 0,
            slave_ack_count: 0,
            handshake_state: state,
        };
        let ghost before = self.master_info.slave_list@;
        match assoc_find_idx(&self.master_info.slave_list, &host_copy) {
            Some(i) => {
                proof {
                    lemma_assoc_found(before, i as int);
                }
                let previous = &self.master_info.slave_list[i];
                rec.port = previous.1.port.clone();
                rec.slave_repl_offset = previous.1.slave_repl_offset;
                rec.slave_ping_count = previous.1.slave_ping_count;
                rec.slave_ack_count = previous.1.slave_ack_count;
                if crate::replication::rank_of(previous.1.handshake_state)
                    > crate::replication::rank_of(state) {
                    rec.handshake_state = previous.1.handshake_state;
                }
                let p = (host_copy, rec);
                proof {
                    lemma_assoc_update(before, i as int, p);
                }
                self.master_info.slave_list.set(i, p);
                proof {
                    assert(self.slaves().dom() =~= old(self).slaves().dom().insert(p.0@));
                }
            },
            None => {
                proof {
                    lemma_assoc_absent(before, host_copy@);
                }
                let p = (host_copy, rec);
                proof {
                    lemma_assoc_push(before, p);
                }
                self.master_info.slave_list.push(p);
                proof {
                    assert(self.slaves().dom() =~= old(self).slaves().dom().insert(p.0@));
                }
            },
        }
    }

    /// The record of the replica at `host`, if one is registered.
    pub fn get_slave_node(&self, host: &str) -> (r: Option<SlaveInfo>)
        requires
            self.inv(),
        ensures
            match r {
                Some(rec) => self.slaves().dom().contains(host@) && slave_like(
                    rec,
                    self.slaves()[host@],
                ),
                None => !self.slaves().dom().contains(host@),
            },
    {
        let hs = host.to_owned();
        match assoc_find_idx(&self.master_info.slave_list, &hs) {
            Some(i) => {
                proof {
                    lemma_assoc_found(self.master_info.slave_list@, i as int);
                }
                Some(clone_slave(&self.master_info.slave_list[i].1))
            },
            None => {
                proof {
                    lemma_assoc_absent(self.master_info.slave_list@, host@);
                }
                None
            },
        }
    }

    /// Stores the offset a replica just acknowledged; an unknown host
    /// changes nothing.
    pub fn set_slave_offset(&mut self, host: String, offset: u64)
        requires
            old(self).inv(),
        ensures
            final(self).inv(),
            old(self).slaves().dom().contains(host@) ==> final(self).slaves() == old(self).slaves().insert(
                host@,
                (SlaveInfo { slave_repl_offset: offset, ..old(self).slaves()[host@] }),
            ),
            !old(self).slaves().dom().contains(host@) ==> *final(self) == *old(self),
            final(self).dict_view() == old(self).dict_view(),
            final(self).expiry_view() == old(self).expiry_view(),
            final(self).streams_view() == old(self).streams_view(),
            final(self).master_info.master_repl_offset == old(self).master_info.master_repl_offset,
    {
        let ghost before = self.master_info.slave_list@;
        match assoc_find_idx(&self.master_info.slave_list, &host) {
            Some(i) => {
                proof {
                    lemma_assoc_found(before, i as int);
                }
                let previous = &self.master_info.slave_list[i];
                let rec = SlaveInfo {
                    host: previous.1.host.clone(),
                    port: previous.1.port.clone(),
                    master_replid: previous.1.master_replid.clone(),
                    slave_repl_offset: offset,
                    slave_ping_count: previous.1.slave_ping_count,
                    slave_ack_count: previous.1.slave_ack_count,
                    handshake_state: previous.1.handshake_state,
                };
                let key = previous.0.clone();
                let ghost oldrec = before[i as int].1;
                let p = (key, rec);
                proof {
                    lemma_assoc_update(before, i as int, p);
                    assert(p.0@ == host@);
                }
                self.master_info.slave_list.set(i, p);
            },
            None => {
                proof {
                    lemma_assoc_absent(before, host@);
                }
            },
        }
    }

    /// Whether an accepted write must be fanned out: only a master
    /// with at least one registered replica propagates.
    pub fn should_sync_command(&self) -> (r: bool)
        ensures
            r == (self.role_master() && self.master_info.slave_list@.len() > 0),
    {
        self.is_master() && self.master_info.slave_list.len() > 0
    }

    /// How many replicas have completed the handshake.
    pub fn get_connected_replica_count(&self) -> (r: u32)
        requires
            self.inv(),
            self.master_info.slave_list@.len() <= u32::MAX,
        ensures
            r == spec_psync_count(self.master_info.slave_list@),
    {
        let ghost s = self.master_info.slave_list@;
        let mut count: u32 = 0;
        let mut i: usize = 0;
        proof {
            assert(spec_psync_count(s.take(0)) == 0);
        }
        while i < self.master_info.slave_list.len()
            invariant
                i <= s.len(),
                s == self.master_info.slave_list@,
                s.len() <= u32::MAX,
                count == spec_psync_count(s.take(i as int)),
                count <= i,
            decreases s.len() - i,
        {
            proof {
                assert(s.take(i + 1).drop_last() =~= s.take(i as int));
                assert(s.take(i + 1).last() == s[i as int]);
            }
            let is_psync = match self.master_info.slave_list[i].1.handshake_state {
                HandshakeState::Psync => true,
                _ => false,
            };
            if is_psync {
                count = count + 1;
            }
            i = i + 1;
        }
        proof {
            assert(s.take(s.len() as int) =~= s);
        }
        count
    }

    /// The effective offsets of the `Psync` replicas, health traffic
    /// deducted, in registry order.
    pub fn get_ack_to_slave(&self) -> (r: Vec<u64>)
        requires
            self.inv(),
        ensures
            r@ == spec_effective_offsets(self.master_info.slave_list@),
    {
        let ghost s = self.master_info.slave_list@;
        let mut out: Vec<u64> = Vec::new();
        let mut i: usize = 0;
        proof {
            assert(spec_effective_offsets(s.take(0)) =~= Seq::<u64>::empty());
        }
        while i < self.master_info.slave_list.len()
            invariant
                i <= s.len(),
                s == self.master_info.slave_list@,
                out@ == spec_effective_offsets(s.take(i as int)),
            decreases s.len() - i,
        {
            proof {
                assert(s.take(i + 1).drop_last() =~= s.take(i as int));
                assert(s.take(i + 1).last() == s[i as int]);
            }
            let rec = &self.master_info.slave_list[i].1;
            let is_psync = match rec.handshake_state {
                HandshakeState::Psync => true,
                _ => false,
            };
            if is_psync {
                let deduction = mul_sat(
                    rec.slave_ack_count.saturating_sub(1),
                    crate::replication::PING_LEN as u64,
                ).saturating_add(
                    mul_sat(rec.slave_ping_count, crate::replication::REPL_GETACK_LEN as u64),
                );
                out.push(rec.slave_repl_offset.saturating_sub(deduction));
            }
            i = i + 1;
        }
        proof {
            assert(s.take(s.len() as int) =~= s);
        }
        out
    }

    /// How many replicas have caught up to the last write: those whose
    /// effective offset reaches `last_set_offset`.  Never more than
    /// the number of `Psync` replicas.
    pub fn count_caught_up(&self) -> (r: u32)
        requires
            self.inv(),
            self.master_info.slave_list@.len() <= u32::MAX,
        ensures
            r == spec_caught_up(
                spec_effective_offsets(self.master_info.slave_list@),
                self.master_info.last_set_offset,
            ),
            r <= spec_psync_count(self.master_info.slave_list@),
    {
        let offsets = self.get_ack_to_slave();
        let target = self.master_info.last_set_offset;
        let ghost os = offsets@;
        proof {
            lemma_effective_offsets_len(self.master_info.slave_list@);
            lemma_psync_count_bound(self.master_info.slave_list@);
            lemma_caught_up_bound(os, target);
        }
        let mut count: u32 = 0;
        let mut i: usize = 0;
        proof {
            assert(spec_caught_up(os.take(0), target) == 0);
        }
        while i < offsets.len()
            invariant
                i <= os.len(),
                os == offsets@,
                os.len() <= u32::MAX,
                count == spec_caught_up(os.take(i as int), target),
                count <= i,
                target == self.master_info.last_set_offset,
            decreases os.len() - i,
        {
            proof {
                assert(os.take(i + 1).drop_last() =~= os.take(i as int));
                assert(os.take(i + 1).last() == os[i as int]);
            }
            if offsets[i] >= target {
                count = count + 1;
            }
            i = i + 1;
        }
        proof {
            assert(os.take(os.len() as int) =~= os);
        }
        count
    }

    /// Whether a `REPLCONF GETACK *` round is due: the master offset
    /// moved since the last broadcast.
    pub fn needs_ack_broadcast(&self) -> (r: bool)
        ensures
            r == (self.master_offset_spec() != self.last_send_offset_spec()),
    {
        let a = self.get_master_offset();
        let b = self.get_last_send_offset();
        a != b
    }

    /// The master offset as `get_master_offset` reports it.
    pub open spec fn master_offset_spec(&self) -> u64 {
        if self.role_master() {
            self.master_info.master_repl_offset
        } else {
            0
        }
    }

    /// The last-broadcast offset as `get_last_send_offset` reports it.
    pub open spec fn last_send_offset_spec(&self) -> u64 {
        if self.role_master() {
            self.master_info.last_send_repl_offset
        } else {
            0
        }
    }

    /// Records one `REPLCONF GETACK *` broadcast: every `Psync`
    /// replica's probe counter steps, and both the broadcast offset
    /// and the `WAIT` target move to the current master offset.
    pub fn record_ack_broadcast(&mut self)
        requires
            old(self).inv(),
        ensures
            final(self).inv(),
            final(self).master_info.slave_list@.len() == old(self).master_info.slave_list@.len(),
            forall|i: int|
                0 <= i < old(self).master_info.slave_list@.len() ==> ack_stepped(
                    old(self).master_info.slave_list@[i],
                    #[trigger] final(self).master_info.slave_list@[i],
                ),
            final(self).master_info.master_repl_offset == old(self).master_info.master_repl_offset,
            old(self).role_master() ==> final(self).master_info.last_set_offset == old(self).master_info.master_repl_offset && final(self).master_info.last_send_repl_offset
                == old(self).master_info.master_repl_offset,
            final(self).master_info.write_history == old(self).master_info.write_history,
            final(self).dict_view() == old(self).dict_view(),
            final(self).expiry_view() == old(self).expiry_view(),
            final(self).streams_view() == old(self).streams_view(),
            final(self).replica_info == old(self).replica_info,
    {
        let ghost before = self.master_info.slave_list@;
        let n = self.master_info.slave_list.len();
        let mut i: usize = 0;
        while i < n
            invariant
                i <= n,
                n == self.master_info.slave_list@.len(),
                before.len() == n,
                self.inv(),
                forall|j: int|
                    0 <= j < i ==> ack_stepped(
                        before[j],
                        #[trigger] self.master_info.slave_list@[j],
                    ),
                forall|j: int|
                    i <= j < n ==> #[trigger] self.master_info.slave_list@[j] == before[j],
                self.master_info.master_repl_offset == old(self).master_info.master_repl_offset,
                self.master_info.last_set_offset == old(self).master_info.last_set_offset,
                self.master_info.last_send_repl_offset == old(self).master_info.last_send_repl_offset,
                self.master_info.write_history == old(self).master_info.write_history,
                self.master_info.master_replid == old(self).master_info.master_replid,
                self.master_info.handshake_state == old(self).master_info.handshake_state,
                self.dict_view() == old(self).dict_view(),
                self.expiry_view() == old(self).expiry_view(),
                self.streams_view() == old(self).streams_view(),
                self.replica_info == old(self).replica_info,
            decreases n - i,
        {
            let rec = &self.master_info.slave_list[i].1;
            let is_psync = match rec.handshake_state {
                HandshakeState::Psync => true,
                _ => false,
            };
            if is_psync {
                let stepped = SlaveInfo {
                    host: rec.host.clone(),
                    port: rec.port.clone(),
                    master_replid: rec.master_replid.clone(),
                    slave_repl_offset: rec.slave_repl_offset,
                    slave_ping_count: rec.slave_ping_count,
                    slave_ack_count: rec.slave_ack_count.saturating_add(1),
                    handshake_state: rec.handshake_state,
                };
                let key = self.master_info.slave_list[i].0.clone();
                let ghost snap = self.master_info.slave_list@;
                let p = (key, stepped);
                proof {
                    lemma_assoc_update(snap, i as int, p);
                    assert(p.0@ == snap[i as int].0@);
                }
                self.master_info.slave_list.set(i, p);
            }
            i = i + 1;
        }
        let current = self.get_master_offset();
        if self.is_master() {
            self.master_info.last_set_offset = current;
            self.master_info.last_send_repl_offset = current;
        }
    }

    /// Records one health `PING` broadcast: every `Psync` replica's
    /// ping counter steps.
    pub fn record_ping_broadcast(&mut self)
        requires
            old(self).inv(),
        ensures
            final(self).inv(),
            final(self).master_info.slave_list@.len() == old(self).master_info.slave_list@.len(),
            forall|i: int|
                0 <= i < old(self).master_info.slave_list@.len() ==> ping_stepped(
                    old(self).master_info.slave_list@[i],
                    #[trigger] final(self).master_info.slave_list@[i],
                ),
            final(self).master_info.master_repl_offset == old(self).master_info.master_repl_offset,
            final(self).master_info.last_set_offset == old(self).master_info.last_set_offset,
            final(self).master_info.last_send_repl_offset == old(self).master_info.last_send_repl_offset,
            final(self).master_info.write_history == old(self).master_info.write_history,
            final(self).dict_view() == old(self).dict_view(),
            final(self).expiry_view() == old(self).expiry_view(),
            final(self).streams_view() == old(self).streams_view(),
            final(self).replica_info == old(self).replica_info,
    {
        let ghost before = self.master_info.slave_list@;
        let n = self.master_info.slave_list.len();
        let mut i: usize = 0;
        while i < n
            invariant
                i <= n,
                n == self.master_info.slave_list@.len(),
                before.len() == n,
                self.inv(),
                forall|j: int|
                    0 <= j < i ==> ping_stepped(
                        before[j],
                        #[trigger] self.master_info.slave_list@[j],
                    ),
                forall|j: int|
                    i <= j < n ==> #[trigger] self.master_info.slave_list@[j] == before[j],
                self.master_info.master_repl_offset == old(self).master_info.master_repl_offset,
                self.master_info.last_set_offset == old(self).master_info.last_set_offset,
                self.master_info.last_send_repl_offset == old(self).master_info.last_send_repl_offset,
                self.master_info.write_history == old(self).master_info.write_history,
                self.dict_view() == old(self).dict_view(),
                self.expiry_view() == old(self).expiry_view(),
                self.streams_view() == old(self).streams_view(),
                self.replica_info == old(self).replica_info,
            decreases n - i,
        {
            let rec = &self.master_info.slave_list[i].1;
            let is_psync = match rec.handshake_state {
                HandshakeState::Psync => true,
                _ => false,
            };
            if is_psync {
                let stepped = SlaveInfo {
                    host: rec.host.clone(),
                    port: rec.port.clone(),
                    master_replid: rec.master_replid.clone(),
                    slave_repl_offset: rec.slave_repl_offset,
                    slave_ping_count: rec.slave_ping_count.saturating_add(1),
                    slave_ack_count: rec.slave_ack_count,
                    handshake_state: rec.handshake_state,
                };
                let key = self.master_info.slave_list[i].0.clone();
                let ghost snap = self.master_info.slave_list@;
                let p = (key, stepped);
                proof {
                    lemma_assoc_update(snap, i as int, p);
                    assert(p.0@ == snap[i as int].0@);
                }
                self.master_info.slave_list.set(i, p);
            }
            i = i + 1;
        }
    }

    /// The peer addresses of the replicas in `Psync` state, the ones
    /// replication traffic goes to, in registry order.
    pub fn sync_targets(&self) -> (r: Vec<String>)
        requires
            self.inv(),
        ensures
            r@.map_values(|h: String| h@) == spec_sync_targets(self.master_info.slave_list@),
    {
        let ghost s = self.master_info.slave_list@;
        let mut out: Vec<String> = Vec::new();
        let mut i: usize = 0;
        proof {
            assert(out@.map_values(|h: String| h@) =~= spec_sync_targets(s.take(0)));
        }
        while i < self.master_info.slave_list.len()
            invariant
                i <= s.len(),
                s == self.master_info.slave_list@,
                out@.map_values(|h: String| h@) == spec_sync_targets(s.take(i as int)),
            decreases s.len() - i,
        {
            proof {
                assert(s.take(i + 1).drop_last() =~= s.take(i as int));
                assert(s.take(i + 1).last() == s[i as int]);
            }
            let is_psync = match self.master_info.slave_list[i].1.handshake_state {
                HandshakeState::Psync => true,
                _ => false,
            };
            if is_psync {
                let ghost snap = out@;
                out.push(self.master_info.slave_list[i].0.clone());
                proof {
                    assert(out@.map_values(|h: String| h@) =~= snap.map_values(
                        |h: String| h@,
                    ).push(s[i as int].0@));
                }
            }
            proof {
                assert(out@.map_values(|h: String| h@) =~= spec_sync_targets(s.take(i + 1)));
            }
            i = i + 1;
        }
        proof {
            assert(s.take(s.len() as int) =~= s);
        }
        out
    }

    /// `WAIT` with no outstanding write returns at once: when nothing
    /// was written since the last broadcast and the target equals the
    /// master offset, the reply is simply the `Psync` replica count.
    pub fn wait_immediate(&self) -> (r: Option<u32>)
        requires
            self.inv(),
            self.master_info.slave_list@.len() <= u32::MAX,
        ensures
            match r {
                Some(n) => self.master_offset_spec() == self.last_send_offset_spec()
                    && self.master_offset_spec() == self.last_set_offset_spec() && n
                    == spec_psync_count(self.master_info.slave_list@),
                None => self.master_offset_spec() != self.last_send_offset_spec()
                    || self.master_offset_spec() != self.last_set_offset_spec(),
            },
    {
        let a = self.get_master_offset();
        let b = self.get_last_send_offset();
        let c = self.get_last_set_offset();
        if a == b && a == c {
            Some(self.get_connected_replica_count())
        } else {
            None
        }
    }

    /// The `WAIT` target as `get_last_set_offset` reports it.
    pub open spec fn last_set_offset_spec(&self) -> u64 {
        if self.role_master() {
            self.master_info.last_set_offset
        } else {
            0
        }
    }
}

/// The hosts of the `Psync` replicas, in registry order.
pub open spec fn spec_sync_targets(s: Seq<(String, SlaveInfo)>) -> Seq<Seq<char>>
    decreases s.len(),
{
    if s.len() == 0 {
        Seq::empty()
    } else {
        spec_sync_targets(s.drop_last()) + (if s.last().1.handshake_state is Psync {
            seq![s.last().0@]
        } else {
            Seq::empty()
        })
    }
}

/// `b` is `a` with one more ACK probe counted (stopping at the top of
/// the counter), all else equal; replicas still shaking hands are left
/// alone.
pub open spec fn ack_stepped(a: (String, SlaveInfo), b: (String, SlaveInfo)) -> bool {
    if a.1.handshake_state is Psync {
        b.0@ == a.0@ && b.1.host@ == a.1.host@ && b.1.port@ == a.1.port@ && b.1.master_replid@
            == a.1.master_replid@ && b.1.slave_repl_offset == a.1.slave_repl_offset
            && b.1.slave_ping_count == a.1.slave_ping_count && b.1.slave_ack_count
            == crate::store::spec_sat_add(a.1.slave_ack_count, 1) && b.1.handshake_state
            == a.1.handshake_state
    } else {
        b == a
    }
}

/// `b` is `a` with one more health ping counted, all else equal;
/// replicas still shaking hands are left alone.
pub open spec fn ping_stepped(a: (String, SlaveInfo), b: (String, SlaveInfo)) -> bool {
    if a.1.handshake_state is Psync {
        b.0@ == a.0@ && b.1.host@ == a.1.host@ && b.1.port@ == a.1.port@ && b.1.master_replid@
            == a.1.master_replid@ && b.1.slave_repl_offset == a.1.slave_repl_offset
            && b.1.slave_ping_count == crate::store::spec_sat_add(a.1.slave_ping_count, 1)
            && b.1.slave_ack_count == a.1.slave_ack_count && b.1.handshake_state
            == a.1.handshake_state
    } else {
        b == a
    }
}

/// Field-for-field likeness of two replica records, text compared as
/// text.
pub open spec fn slave_like(a: SlaveInfo, b: SlaveInfo) -> bool {
    a.host@ == b.host@ && a.port@ == b.port@ && a.master_replid@ == b.master_replid@
        && a.slave_repl_offset == b.slave_repl_offset && a.slave_ping_count == b.slave_ping_count
        && a.slave_ack_count == b.slave_ack_count && a.handshake_state == b.handshake_state
}

/// Copies a replica record field by field.
pub fn clone_slave(rec: &SlaveInfo) -> (r: SlaveInfo)
    ensures
        slave_like(r, *rec),
{
    SlaveInfo {
        host: rec.host.clone(),
        port: rec.port.clone(),
        master_replid: rec.master_replid.clone(),
        slave_repl_offset: rec.slave_repl_offset,
        slave_ping_count: rec.slave_ping_count,
        slave_ack_count: rec.slave_ack_count,
        handshake_state: rec.handshake_state,
    }
}

} // verus!

verus! {

/// On a well-formed node the master offset counter equals the summed
/// serialized lengths of the accepted writes — the recorded history.
/// Each recorded length is a command's exact wire length by the
/// contract of `count_resp_command_type_offset`, whose measure
/// `array_wire_len` is the length of the wire encoding itself
/// (`lemma_array_wire_len`).
pub proof fn lemma_master_offset_sums(db: StoreEngine)
    requires
        db.inv(),
    ensures
        db.master_info.master_repl_offset as nat == seq_sum(db.master_info.write_history@),
{
}

} // verus!
