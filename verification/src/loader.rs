//! The RDB snapshot reader: the bytes of a snapshot file in, string
//! records into the store.
//!
//! The grammar is given once, as the spec functions below: the magic,
//! a version, then opcodes — auxiliary pairs, database selectors, hash
//! sizes, expiry stamps, string records — until the end marker.
//! [`RDBLoader::parse`] replays exactly the records the grammar yields.

use vstd::prelude::*;
use crate::resp::spec_dec_nat;
use crate::store::StoreEngine;
use crate::text::chars_of_bytes;

verus! {

/// Opcode: an auxiliary key/value pair.
pub const OP_AUX: u8 = 250;

/// Opcode: hash table sizes for the selected database.
pub const OP_RESIZEDB: u8 = 251;

/// Opcode: an expiry stamp in milliseconds for the next record.
pub const OP_EXPIRETIME_MS: u8 = 252;

/// Opcode: an expiry stamp in seconds for the next record.
pub const OP_EXPIRETIME: u8 = 253;

/// Opcode: a database selector.
pub const OP_SELECTDB: u8 = 254;

/// Opcode: the end of the snapshot.
pub const OP_EOF: u8 = 255;

/// Value type: a plain string record.
pub const TYPE_STRING: u8 = 0;

/// What one header read yields while the loader walks the file.
#[derive(Debug, PartialEq, Eq)]
pub enum RDBParseType {
    /// Nothing read yet.
    Idle,
    /// An auxiliary metadata pair.
    Aux(Vec<(String, String)>),
    /// The selected database number.
    DB(u8),
    /// The two announced hash table sizes.
    ResizeDB((u32, u32)),
}

/// One step of header parsing and whether the walk is over.
#[derive(Debug)]
pub struct RDBParseState {
    pub parse_type: RDBParseType,
    pub is_finished: bool,
}

impl Default for RDBParseState {
    /// Before anything was read.
    fn default() -> (r: RDBParseState)
        ensures
            r.parse_type is Idle,
            !r.is_finished,
    {
        RDBParseState { parse_type: RDBParseType::Idle, is_finished: false }
    }
}

/// A length field: its value, whether it marks a special encoding, and
/// the position after it.  The top two bits of the first byte select
/// the form: six bits inline, fourteen bits over two bytes, thirty-two
/// bits big-endian over the next four, or a special string encoding.
#[verifier::opaque]
pub open spec fn spec_len_enc(b: Seq<u8>, p: int) -> Option<(nat, bool, int)> {
    if p < 0 || p >= b.len() {
        None
    } else {
        let top = b[p] / 64;
        let low = (b[p] % 64) as nat;
        if top == 0 {
            Some((low, false, p + 1))
        } else if top == 1 {
            if p + 2 <= b.len() {
                Some(((low * 256 + b[p + 1]) as nat, false, p + 2))
            } else {
                None
            }
        } else if top == 2 {
            if p + 5 <= b.len() {
                Some(
                    (
                        (b[p + 1] * 0x1000000 + b[p + 2] * 0x10000 + b[p + 3] * 0x100 + b[p
                            + 4]) as nat,
                        false,
                        p + 5,
                    ),
                )
            } else {
                None
            }
        } else {
            Some((low, true, p + 1))
        }
    }
}

/// A string field: its text and the position after it.  A plain length
/// is followed by that many bytes; the special encodings hold a little-
/// endian integer of one, two or four bytes, read back as its decimal
/// text, or a compressed blob the loader treats as empty.
#[verifier::opaque]
pub open spec fn spec_str_enc(b: Seq<u8>, p: int) -> Option<(Seq<char>, int)> {
    match spec_len_enc(b, p) {
        None => None,
        Some((n, special, q)) => if special {
            if n == 0 {
                if q + 1 <= b.len() {
                    Some((chars_of_bytes(spec_dec_nat(b[q] as nat)), q + 1))
                } else {
                    None
                }
            } else if n == 1 {
                if q + 2 <= b.len() {
                    Some((chars_of_bytes(spec_dec_nat((b[q] + b[q + 1] * 256) as nat)), q + 2))
                } else {
                    None
                }
            } else if n == 2 {
                if q + 4 <= b.len() {
                    Some(
                        (
                            chars_of_bytes(
                                spec_dec_nat(
                                    (b[q] + b[q + 1] * 0x100 + b[q + 2] * 0x10000 + b[q + 3]
                                        * 0x1000000) as nat,
                                ),
                            ),
                            q + 4,
                        ),
                    )
                } else {
                    None
                }
            } else if n == 3 {
                Some((Seq::empty(), q))
            } else {
                None
            }
        } else {
            if q + n <= b.len() {
                Some((chars_of_bytes(b.subrange(q, q + n)), q + n))
            } else {
                None
            }
        },
    }
}

/// One string record: its key, its value, and the expiry stamp, if one
/// directly precedes it.
pub struct RdbRecord {
    pub key: Seq<char>,
    pub value: Seq<char>,
    pub expire_at_ms: Option<u64>,
}

/// The records from position `p` to the end marker.  `pending` carries
/// an expiry stamp into the record it precedes; value types other than
/// the string record are skipped as no-ops; a malformed byte ends the
/// walk with nothing.
pub open spec fn spec_rdb_records(b: Seq<u8>, p: int, pending: Option<u64>) -> Option<
    Seq<RdbRecord>,
>
    decreases b.len() - p,
{
    if p < 0 || p >= b.len() {
        None
    } else {
        let op = b[p];
        if op == OP_EOF {
            Some(Seq::empty())
        } else if op == OP_AUX {
            match spec_str_enc(b, p + 1) {
                None => None,
                Some((_k, q1)) => match spec_str_enc(b, q1) {
                    None => None,
                    Some((_v, q2)) => if p + 1 <= q1 <= q2 <= b.len() {
                        spec_rdb_records(b, q2, pending)
                    } else {
                        None
                    },
                },
            }
        } else if op == OP_SELECTDB {
            if p + 2 <= b.len() {
                spec_rdb_records(b, p + 2, pending)
            } else {
                None
            }
        } else if op == OP_RESIZEDB {
            match spec_len_enc(b, p + 1) {
                None => None,
                Some((_n1, _s1, q1)) => match spec_len_enc(b, q1) {
                    None => None,
                    Some((_n2, _s2, q2)) => if p + 1 <= q1 <= q2 <= b.len() {
                        spec_rdb_records(b, q2, pending)
                    } else {
                        None
                    },
                },
            }
        } else if op == OP_EXPIRETIME_MS {
            if p + 9 <= b.len() {
                spec_rdb_records(b, p + 9, Some(spec_u64_le(b, p + 1)))
            } else {
                None
            }
        } else if op == OP_EXPIRETIME {
            if p + 5 <= b.len() {
                spec_rdb_records(b, p + 5, Some(spec_u32_le_secs(b, p + 1)))
            } else {
                None
            }
        } else if op == TYPE_STRING {
            match spec_str_enc(b, p + 1) {
                None => None,
                Some((k, q1)) => match spec_str_enc(b, q1) {
                    None => None,
                    Some((v, q2)) => if p + 1 <= q1 <= q2 <= b.len() {
                        match spec_rdb_records(b, q2, None) {
                            None => None,
                            Some(rest) => Some(
                                seq![
                                    (RdbRecord { key: k, value: v, expire_at_ms: pending }),
                                ] + rest,
                            ),
                        }
                    } else {
                        None
                    },
                },
            }
        } else if 1 <= op <= 14 {
            // other value types carry no string record: a no-op
            spec_rdb_records(b, p + 1, pending)
        } else {
            None
        }
    }
}

/// A little-endian eight-byte integer.
pub open spec fn spec_u64_le(b: Seq<u8>, p: int) -> u64 {
    (b[p] + b[p + 1] * 0x100 + b[p + 2] * 0x10000 + b[p + 3] * 0x1000000 + b[p + 4] * 0x100000000
        + b[p + 5] * 0x10000000000 + b[p + 6] * 0x1000000000000 + b[p + 7]
        * 0x100000000000000) as u64
}

/// A little-endian four-byte integer of seconds, as milliseconds.
pub open spec fn spec_u32_le_secs(b: Seq<u8>, p: int) -> u64 {
    ((b[p] + b[p + 1] * 0x100 + b[p + 2] * 0x10000 + b[p + 3] * 0x1000000) * 1000) as u64
}

/// What a whole snapshot denotes: `REDIS`, four version bytes, then
/// the records.
pub open spec fn spec_rdb(b: Seq<u8>) -> Option<Seq<RdbRecord>> {
    if b.len() >= 9 && b.subrange(0, 5) == bytes_of_redis_magic() {
        spec_rdb_records(b, 9, None)
    } else {
        None
    }
}

/// The five magic bytes `REDIS`.
pub open spec fn bytes_of_redis_magic() -> Seq<u8> {
    seq![82u8, 69u8, 68u8, 73u8, 83u8]
}

/// The store after replaying records in order.
pub open spec fn spec_apply_records(db: StoreEngine, records: Seq<RdbRecord>) -> (
    Map<Seq<char>, Seq<char>>,
    Map<Seq<char>, u64>,
)
    decreases records.len(),
{
    if records.len() == 0 {
        (db.kv_text(), db.expiry_view())
    } else {
        let (kv, ex) = spec_apply_records(db, records.drop_last());
        let rec = records.last();
        match rec.expire_at_ms {
            None => (kv.insert(rec.key, rec.value), ex),
            Some(at) => (kv.insert(rec.key, rec.value), ex.insert(rec.key, at)),
        }
    }
}

} // verus!

// ---------------------------------------------------------------------------
// The executable loader
// ---------------------------------------------------------------------------

verus! {

/// The snapshot did not follow the grammar.
#[derive(Debug, Clone, Copy, PartialEq, Eq, Structural)]
pub struct RdbError;

/// Reads one length field.
pub fn parse_length_encoding(data: &Vec<u8>, pos: usize) -> (r: Option<(u32, bool, usize)>)
    ensures
        match r {
            Some(t) => spec_len_enc(data@, pos as int) == Some((t.0 as nat, t.1, t.2 as int))
                && pos < t.2 <= data@.len(),
            None => spec_len_enc(data@, pos as int) is None,
        },
{
    proof {
        reveal(spec_len_enc);
    }
    if pos >= data.len() {
        return None;
    }
    let rem = data.len() - pos;
    let head = data[pos];
    let top = head / 64;
    let low = (head % 64) as u32;
    if top == 0 {
        Some((low, false, pos + 1))
    } else if top == 1 {
        if rem >= 2 {
            Some((low * 256 + data[pos + 1] as u32, false, pos + 2))
        } else {
            None
        }
    } else if top == 2 {
        if rem >= 5 {
            let v = data[pos + 1] as u32 * 0x1000000 + data[pos + 2] as u32 * 0x10000 + data[pos
                + 3] as u32 * 0x100 + data[pos + 4] as u32;
            Some((v, false, pos + 5))
        } else {
            None
        }
    } else {
        Some((low, true, pos + 1))
    }
}

/// Reads one string field.
pub fn parse_string_encoding(data: &Vec<u8>, pos: usize) -> (r: Option<(String, usize)>)
    ensures
        match r {
            Some(t) => (spec_str_enc(data@, pos as int) matches Some(s) && t.0@ == s.0 && t.1
                == s.1) && pos < t.1 <= data@.len(),
            None => spec_str_enc(data@, pos as int) is None,
        },
{
    proof {
        reveal(spec_str_enc);
    }
    match parse_length_encoding(data, pos) {
        None => None,
        Some((n, special, q)) => {
            if special {
                let rem2 = data.len() - q;
                if n == 0 {
                    if rem2 >= 1 {
                        let mut digits: Vec<u8> = Vec::new();
                        crate::resp::push_dec_u64(&mut digits, data[q] as u64);
                        Some((crate::text::bytes_to_string(&digits), q + 1))
                    } else {
                        None
                    }
                } else if n == 1 {
                    if rem2 >= 2 {
                        let v = data[q] as u64 + data[q + 1] as u64 * 256;
                        let mut digits: Vec<u8> = Vec::new();
                        crate::resp::push_dec_u64(&mut digits, v);
                        Some((crate::text::bytes_to_string(&digits), q + 2))
                    } else {
                        None
                    }
                } else if n == 2 {
                    if rem2 >= 4 {
                        let v = data[q] as u64 + data[q + 1] as u64 * 0x100 + data[q + 2] as u64
                            * 0x10000 + data[q + 3] as u64 * 0x1000000;
                        let mut digits: Vec<u8> = Vec::new();
                        crate::resp::push_dec_u64(&mut digits, v);
                        Some((crate::text::bytes_to_string(&digits), q + 4))
                    } else {
                        None
                    }
                } else if n == 3 {
                    // a compressed blob: carried as the empty string
                    proof {
                        assert(crate::text::chars_of_bytes(Seq::<u8>::empty()) =~= Seq::<
                            char,
                        >::empty());
                    }
                    Some((String::new(), q))
                } else {
                    None
                }
            } else {
                let n_us = n as usize;
                if n_us <= data.len() - q {
                    let payload = crate::resp::copy_range(data, q, q + n_us);
                    Some((crate::text::bytes_to_string(&payload), q + n_us))
                } else {
                    None
                }
            }
        },
    }
}

/// The snapshot loader: checks the header and replays the records the
/// grammar yields, exactly and in order.
pub trait RDBLoader: Sized {
    /// The store's invariant.
    spec fn loader_wf(&self) -> bool;

    /// The stored text, for stating what loading did.
    spec fn loader_kv(&self) -> Map<Seq<char>, Seq<char>>;

    /// The queued expiries.
    spec fn loader_expiry(&self) -> Map<Seq<char>, u64>;

    /// Whether the snapshot starts with the magic `REDIS`.
    fn verify_magic(&self, data: &Vec<u8>) -> (r: bool)
        ensures
            r == (data@.len() >= 5 && data@.subrange(0, 5) == bytes_of_redis_magic()),
    ;

    /// Whether four version bytes follow the magic.
    fn verify_version(&self, data: &Vec<u8>) -> (r: bool)
        ensures
            r == (data@.len() >= 9),
    ;

    /// Everything the loader leaves alone.
    spec fn loader_frame(&self) -> (
        Map<Seq<char>, Vec<crate::stream::StreamEntry>>,
        crate::replication::NodeInfo,
        crate::rdb::RdbConf,
        crate::replication::ReplicaType,
        crate::replication::MasterInfo,
        crate::replication::SlaveInfo,
    );

    /// Replays a whole snapshot into the store.  A snapshot outside
    /// the grammar is an error; what the walk had replayed before the
    /// flaw — some prefix of the records — stays.
    fn parse(&mut self, data: &Vec<u8>) -> (r: Result<bool, RdbError>)
        requires
            old(self).loader_wf(),
        ensures
            final(self).loader_wf(),
            final(self).loader_frame() == old(self).loader_frame(),
            match r {
                Ok(flag) => (spec_rdb(data@) matches Some(records) && final(self).loader_kv()
                    == spec_apply_records_kv(old(self).loader_kv(), records) && final(self).loader_expiry() == spec_apply_records_ex(old(self).loader_expiry(), records))
                    && flag,
                Err(_) => spec_rdb(data@) is None && partially_replayed(
                    old(self).loader_kv(),
                    old(self).loader_expiry(),
                    final(self).loader_kv(),
                    final(self).loader_expiry(),
                ),
            },
    ;
}

/// The stored text after replaying records over `kv`.
pub open spec fn spec_apply_records_kv(
    kv: Map<Seq<char>, Seq<char>>,
    records: Seq<RdbRecord>,
) -> Map<Seq<char>, Seq<char>>
    decreases records.len(),
{
    if records.len() == 0 {
        kv
    } else {
        spec_apply_records_kv(kv, records.drop_last()).insert(
            records.last().key,
            records.last().value,
        )
    }
}

/// The queued expiries after replaying records over `ex`.
pub open spec fn spec_apply_records_ex(ex: Map<Seq<char>, u64>, records: Seq<RdbRecord>) -> Map<
    Seq<char>,
    u64,
>
    decreases records.len(),
{
    if records.len() == 0 {
        ex
    } else {
        let rest = spec_apply_records_ex(ex, records.drop_last());
        match records.last().expire_at_ms {
            None => rest,
            Some(at) => rest.insert(records.last().key, at),
        }
    }
}

/// The store's text and expiries are the replay of some record
/// sequence over their starting points.
pub open spec fn partially_replayed(
    kv0: Map<Seq<char>, Seq<char>>,
    ex0: Map<Seq<char>, u64>,
    kv1: Map<Seq<char>, Seq<char>>,
    ex1: Map<Seq<char>, u64>,
) -> bool {
    exists|rs: Seq<RdbRecord>|
        kv1 == #[trigger] spec_apply_records_kv(kv0, rs) && ex1 == spec_apply_records_ex(ex0, rs)
}

/// What some replay leaves behind is a replay of something.
proof fn lemma_replay_witness(
    kv0: Map<Seq<char>, Seq<char>>,
    ex0: Map<Seq<char>, u64>,
    kv1: Map<Seq<char>, Seq<char>>,
    ex1: Map<Seq<char>, u64>,
    replayed: Seq<RdbRecord>,
)
    requires
        kv1 == spec_apply_records_kv(kv0, replayed),
        ex1 == spec_apply_records_ex(ex0, replayed),
    ensures
        partially_replayed(kv0, ex0, kv1, ex1),
{
    assert(kv1 == spec_apply_records_kv(kv0, replayed) && ex1 == spec_apply_records_ex(
        ex0,
        replayed,
    ));
}

/// Stores one replayed record: the value under its key, and the expiry
/// stamp when one was pending.
fn store_record(db: &mut StoreEngine, key: String, value: String, pending: Option<u64>)
    requires
        old(db).inv(),
    ensures
        final(db).inv(),
        final(db).streams_view() == old(db).streams_view(),
        final(db).master_info == old(db).master_info,
        final(db).replica_info == old(db).replica_info,
        final(db).node_info == old(db).node_info,
        final(db).rdb_info == old(db).rdb_info,
        final(db).slave_info == old(db).slave_info,
        final(db).kv_text() == old(db).kv_text().insert(key@, value@),
        final(db).expiry_view() == (match pending {
            None => old(db).expiry_view(),
            Some(at) => old(db).expiry_view().insert(key@, at),
        }),
{
    let ghost kc = key@;
    let ghost vc = value@;
    match pending {
        None => {
            db.set(key, value);
        },
        Some(at) => {
            db.set_with_expire_at(key, value, at);
        },
    }
    proof {
        assert(final(db).kv_text() =~= old(db).kv_text().insert(kc, vc));
    }
}

impl RDBLoader for StoreEngine {
    open spec fn loader_wf(&self) -> bool {
        self.inv()
    }

    open spec fn loader_kv(&self) -> Map<Seq<char>, Seq<char>> {
        self.kv_text()
    }

    open spec fn loader_expiry(&self) -> Map<Seq<char>, u64> {
        self.expiry_view()
    }

    open spec fn loader_frame(&self) -> (
        Map<Seq<char>, Vec<crate::stream::StreamEntry>>,
        crate::replication::NodeInfo,
        crate::rdb::RdbConf,
        crate::replication::ReplicaType,
        crate::replication::MasterInfo,
        crate::replication::SlaveInfo,
    ) {
        (
            self.streams_view(),
            self.node_info,
            self.rdb_info,
            self.replica_info,
            self.master_info,
            self.slave_info,
        )
    }

    fn verify_magic(&self, data: &Vec<u8>) -> (r: bool) {
        if data.len() < 5 {
            return false;
        }
        let ok = data[0] == 82 && data[1] == 69 && data[2] == 68 && data[3] == 73 && data[4] == 83;
        proof {
            if ok {
                assert(data@.subrange(0, 5) =~= bytes_of_redis_magic());
            } else {
                assert(data@.subrange(0, 5) != bytes_of_redis_magic()) by {
                    if data@.subrange(0, 5) == bytes_of_redis_magic() {
                        assert(data@.subrange(0, 5)[0] == data@[0]);
                        assert(data@.subrange(0, 5)[1] == data@[1]);
                        assert(data@.subrange(0, 5)[2] == data@[2]);
                        assert(data@.subrange(0, 5)[3] == data@[3]);
                        assert(data@.subrange(0, 5)[4] == data@[4]);
                    }
                }
            }
        }
        ok
    }

    fn verify_version(&self, data: &Vec<u8>) -> (r: bool) {
        data.len() >= 9
    }

    #[verifier::spinoff_prover]
    #[verifier::rlimit(100)]
    fn parse(&mut self, data: &Vec<u8>) -> (r: Result<bool, RdbError>) {
        let ghost b = data@;
        proof {
            lemma_replay_witness(
                old(self).kv_text(),
                old(self).expiry_view(),
                self.kv_text(),
                self.expiry_view(),
                Seq::empty(),
            );
        }
        if !self.verify_magic(data) {
            return Err(RdbError);
        }
        if !self.verify_version(data) {
            return Err(RdbError);
        }
        let n = data.len();
        let mut p: usize = 9;
        let mut pending: Option<u64> = None;
        let ghost mut done: Seq<RdbRecord> = Seq::empty();
        proof {
            assert(spec_apply_records_kv(old(self).kv_text(), done) == old(self).kv_text());
            assert(spec_apply_records_ex(old(self).expiry_view(), done) == old(self).expiry_view());
        }
        loop
            invariant
                self.inv(),
                9 <= p <= n,
                n == b.len(),
                b == data@,
                b.len() >= 9,
                b.subrange(0, 5) == bytes_of_redis_magic(),
                self.streams_view() == old(self).streams_view(),
                self.master_info == old(self).master_info,
                self.replica_info == old(self).replica_info,
                self.node_info == old(self).node_info,
                self.rdb_info == old(self).rdb_info,
                self.slave_info == old(self).slave_info,
                self.kv_text() == spec_apply_records_kv(old(self).kv_text(), done),
                self.expiry_view() == spec_apply_records_ex(old(self).expiry_view(), done),
                (match spec_rdb_records(b, p as int, pending) {
                    Some(rest) => spec_rdb_records(b, 9, None) == Some(done + rest),
                    None => spec_rdb_records(b, 9, None) is None,
                }),
            decreases n - p,
        {
            if p >= n {
                proof {
                    lemma_replay_witness(
                        old(self).kv_text(),
                        old(self).expiry_view(),
                        self.kv_text(),
                        self.expiry_view(),
                        done,
                    );
                }
                return Err(RdbError);
            }
            let op = data[p];
            if op == OP_EOF {
                proof {
                    assert(done + Seq::<RdbRecord>::empty() =~= done);
                }
                return Ok(true);
            } else if op == OP_AUX {
                let first = parse_string_encoding(data, p + 1);
                match first {
                    None => {
                        proof {
                    lemma_replay_witness(
                        old(self).kv_text(),
                        old(self).expiry_view(),
                        self.kv_text(),
                        self.expiry_view(),
                        done,
                    );
                }
                return Err(RdbError);
                    },
                    Some((_k, q1)) => {
                        match parse_string_encoding(data, q1) {
                            None => {
                                proof {
                    lemma_replay_witness(
                        old(self).kv_text(),
                        old(self).expiry_view(),
                        self.kv_text(),
                        self.expiry_view(),
                        done,
                    );
                }
                return Err(RdbError);
                            },
                            Some((_v, q2)) => {
                                p = q2;
                            },
                        }
                    },
                }
            } else if op == OP_SELECTDB {
                if n - p < 2 {
                    proof {
                    lemma_replay_witness(
                        old(self).kv_text(),
                        old(self).expiry_view(),
                        self.kv_text(),
                        self.expiry_view(),
                        done,
                    );
                }
                return Err(RdbError);
                }
                p = p + 2;
            } else if op == OP_RESIZEDB {
                match parse_length_encoding(data, p + 1) {
                    None => {
                        proof {
                    lemma_replay_witness(
                        old(self).kv_text(),
                        old(self).expiry_view(),
                        self.kv_text(),
                        self.expiry_view(),
                        done,
                    );
                }
                return Err(RdbError);
                    },
                    Some((_n1, _s1, q1)) => {
                        match parse_length_encoding(data, q1) {
                            None => {
                                proof {
                    lemma_replay_witness(
                        old(self).kv_text(),
                        old(self).expiry_view(),
                        self.kv_text(),
                        self.expiry_view(),
                        done,
                    );
                }
                return Err(RdbError);
                            },
                            Some((_n2, _s2, q2)) => {
                                p = q2;
                            },
                        }
                    },
                }
            } else if op == OP_EXPIRETIME_MS {
                if n - p < 9 {
                    proof {
                    lemma_replay_witness(
                        old(self).kv_text(),
                        old(self).expiry_view(),
                        self.kv_text(),
                        self.expiry_view(),
                        done,
                    );
                }
                return Err(RdbError);
                }
                let at = data[p + 1] as u64 + data[p + 2] as u64 * 0x100 + data[p + 3] as u64
                    * 0x10000 + data[p + 4] as u64 * 0x1000000 + data[p + 5] as u64 * 0x100000000
                    + data[p + 6] as u64 * 0x10000000000 + data[p + 7] as u64 * 0x1000000000000
                    + data[p + 8] as u64 * 0x100000000000000;
                pending = Some(at);
                p = p + 9;
            } else if op == OP_EXPIRETIME {
                if n - p < 5 {
                    proof {
                    lemma_replay_witness(
                        old(self).kv_text(),
                        old(self).expiry_view(),
                        self.kv_text(),
                        self.expiry_view(),
                        done,
                    );
                }
                return Err(RdbError);
                }
                let secs = data[p + 1] as u64 + data[p + 2] as u64 * 0x100 + data[p + 3] as u64
                    * 0x10000 + data[p + 4] as u64 * 0x1000000;
                pending = Some(secs * 1000);
                p = p + 5;
            } else if op == TYPE_STRING {
                let first = parse_string_encoding(data, p + 1);
                match first {
                    None => {
                        proof {
                    lemma_replay_witness(
                        old(self).kv_text(),
                        old(self).expiry_view(),
                        self.kv_text(),
                        self.expiry_view(),
                        done,
                    );
                }
                return Err(RdbError);
                    },
                    Some((key, q1)) => {
                        match parse_string_encoding(data, q1) {
                            None => {
                                proof {
                    lemma_replay_witness(
                        old(self).kv_text(),
                        old(self).expiry_view(),
                        self.kv_text(),
                        self.expiry_view(),
                        done,
                    );
                }
                return Err(RdbError);
                            },
                            Some((value, q2)) => {
                                let ghost rec = RdbRecord {
                                    key: key@,
                                    value: value@,
                                    expire_at_ms: pending,
                                };
                                store_record(self, key, value, pending);
                                proof {
                                    let done0 = done;
                                    done = done0.push(rec);
                                    assert(done.drop_last() =~= done0);
                                }
                                pending = None;
                                p = q2;
                                proof {
                                    match spec_rdb_records(b, p as int, pending) {
                                        Some(rest) => {
                                            assert(done.drop_last() + (seq![rec] + rest) =~= done
                                                + rest);
                                        },
                                        None => {},
                                    }
                                }
                            },
                        }
                    },
                }
            } else if 1 <= op && op <= 14 {
                // other value types carry no string record: a no-op
                p = p + 1;
            } else {
                proof {
                    lemma_replay_witness(
                        old(self).kv_text(),
                        old(self).expiry_view(),
                        self.kv_text(),
                        self.expiry_view(),
                        done,
                    );
                }
                return Err(RdbError);
            }
        }
    }
}

} // verus!
