//! Replication data: the node's role, the master's bookkeeping and the
//! per-replica records.
//!
//! The master's byte counters are the heart of `WAIT`: `master_repl_offset`
//! grows by the serialized length of every accepted write, and the ghost
//! `write_history` pins it to exactly the sum of those lengths.

use vstd::prelude::*;
use crate::assoc::keys_unique;

verus! {

/// The replication id this node advertises (forty hex characters,
/// stable for the process lifetime).
pub const MYID: &'static str = "8371b4fb1155b71f4a04d3e1bc3e18c4a990aeeb";

/// The serialized length of `PING` as a RESP array of bulk strings.
pub const PING_LEN: usize = 14;

/// The serialized length of `REPLCONF GETACK *` as a RESP array of
/// bulk strings.
pub const REPL_GETACK_LEN: usize = 37;

/// The stages of the replica attachment handshake, in order.
#[derive(Debug, Clone, Copy, PartialEq, Eq, Structural)]
pub enum HandshakeState {
    Ping,
    Replconf,
    ReplconfCapa,
    Psync,
}

/// How far a handshake state has advanced.
pub open spec fn hs_rank(s: HandshakeState) -> int {
    match s {
        HandshakeState::Ping => 0,
        HandshakeState::Replconf => 1,
        HandshakeState::ReplconfCapa => 2,
        HandshakeState::Psync => 3,
    }
}

/// How far a handshake state has advanced, executably.
pub fn rank_of(s: HandshakeState) -> (r: u8)
    ensures
        r as int == hs_rank(s),
        r <= 3,
{
    match s {
        HandshakeState::Ping => 0,
        HandshakeState::Replconf => 1,
        HandshakeState::ReplconfCapa => 2,
        HandshakeState::Psync => 3,
    }
}

/// The node's role: a master, or a replica of `host:port`.
#[derive(Debug, PartialEq, Eq)]
pub enum ReplicaType {
    Master,
    Slave(String),
}

/// What this node listens on.
#[derive(Debug)]
pub struct NodeInfo {
    pub port: String,
}

impl Default for NodeInfo {
    /// The conventional port.
    fn default() -> (r: NodeInfo)
        ensures
            r.port@ == "6379"@,
    {
        NodeInfo { port: "6379".to_owned() }
    }
}

/// One attached replica, as the master tracks it.
#[derive(Debug)]
pub struct SlaveInfo {
    /// The peer address the replica connected from.
    pub host: String,
    /// The port the replica advertised with `REPLCONF listening-port`.
    pub port: String,
    /// The replication id the replica follows.
    pub master_replid: String,
    /// The last offset the replica acknowledged.
    pub slave_repl_offset: u64,
    /// Health pings sent to this replica.
    pub slave_ping_count: u64,
    /// `REPLCONF GETACK *` probes sent to this replica.
    pub slave_ack_count: u64,
    pub handshake_state: HandshakeState,
}

impl Default for SlaveInfo {
    /// A record before any handshake step.
    fn default() -> (r: SlaveInfo)
        ensures
            r.host@ == Seq::<char>::empty(),
            r.port@ == Seq::<char>::empty(),
            r.master_replid@ == "?"@,
            r.slave_repl_offset == 0,
            r.slave_ping_count == 0,
            r.slave_ack_count == 0,
            r.handshake_state is Ping,
    {
        SlaveInfo {
            host: String::new(),
            port: String::new(),
            master_replid: "?".to_owned(),
            slave_repl_offset: 0,
            slave_ping_count: 0,
            slave_ack_count: 0,
            handshake_state: HandshakeState::Ping,
        }
    }
}

/// The sum of a sequence of byte counts.
pub open spec fn seq_sum(s: Seq<nat>) -> nat
    decreases s.len(),
{
    if s.len() == 0 {
        0
    } else {
        seq_sum(s.drop_last()) + s.last()
    }
}

/// The master's replication bookkeeping.
pub struct MasterInfo {
    pub master_replid: String,
    /// Bytes of every accepted write, serialized as a RESP array.
    pub master_repl_offset: u64,
    /// The offset at which `REPLCONF GETACK *` was last broadcast.
    pub last_send_repl_offset: u64,
    /// The offset a replica must reach to count as caught up.
    pub last_set_offset: u64,
    pub handshake_state: HandshakeState,
    /// The attached replicas, keyed by peer address.
    pub slave_list: Vec<(String, SlaveInfo)>,
    /// The serialized length of each accepted write, in order.
    pub write_history: Ghost<Seq<nat>>,
}

impl MasterInfo {
    /// The offset counter equals the summed lengths of the accepted
    /// writes, and replica records are keyed uniquely.
    pub open spec fn inv(&self) -> bool {
        self.master_repl_offset as nat == seq_sum(self.write_history@) && keys_unique(
            self.slave_list@,
        )
    }
}

impl Default for MasterInfo {
    /// A master that has accepted no writes and seen no replicas.
    fn default() -> (r: MasterInfo)
        ensures
            r.master_replid@ == MYID@,
            r.master_repl_offset == 0,
            r.last_send_repl_offset == 0,
            r.last_set_offset == 0,
            r.handshake_state is Ping,
            r.slave_list@.len() == 0,
            r.write_history@ == Seq::<nat>::empty(),
            r.inv(),
    {
        let r = MasterInfo {
            master_replid: MYID.to_owned(),
            master_repl_offset: 0,
            last_send_repl_offset: 0,
            last_set_offset: 0,
            handshake_state: HandshakeState::Ping,
            slave_list: Vec::new(),
            write_history: Ghost(Seq::empty()),
        };
        proof {
            assert(seq_sum(r.write_history@) == 0);
        }
        r
    }
}

} // verus!
