//! Stream identifiers and the stream store's entry types.
//!
//! A [`StreamID`] is a pair of a millisecond timestamp and a sequence
//! number, ordered lexicographically; `0-0` is the sentinel before the
//! first possible entry.  [`StreamID::validate`] classifies the textual
//! forms a client may send: a full id, a bare timestamp, `<ms>-*`, `*`,
//! `-` and `+`.

use vstd::prelude::*;
use crate::resp::{all_digits, dec_val};
use crate::text::bytes_of_chars;
use crate::text::chars_of_bytes;

verus! {

/// One stream entry identifier: `<millisecond>-<sequence>`.
#[derive(Debug, Clone, Copy, PartialEq, Eq, Structural)]
pub struct StreamID {
    pub millisecond: u128,
    pub sequence: u64,
}

/// `a` strictly before `b` in the lexicographic order on
/// (millisecond, sequence).
pub open spec fn sid_lt(a: StreamID, b: StreamID) -> bool {
    a.millisecond < b.millisecond || (a.millisecond == b.millisecond && a.sequence < b.sequence)
}

/// `a` before or equal to `b`.
pub open spec fn sid_le(a: StreamID, b: StreamID) -> bool {
    sid_lt(a, b) || a == b
}

/// The sentinel `0-0`, smaller than every valid entry id.
pub open spec fn sid_zero() -> StreamID {
    StreamID { millisecond: 0, sequence: 0 }
}

/// How a textual stream-id argument classifies.
#[derive(Debug, Clone, Copy, PartialEq, Eq, Structural)]
pub enum StreamIDState {
    /// A full `<ms>-<seq>` pair.
    Valid,
    /// A bare millisecond timestamp.
    MillisecondOnly(u128),
    /// `<ms>-*`: generate the sequence number.
    GenerateSequence(u128),
    /// `*`: generate the whole id.
    GenerateMillisecond,
    /// `-`: the first id of the stream.
    FirstStreamID(StreamID),
    /// `+`: the last id of the stream.
    LastStreamID,
    /// None of the recognised forms.
    Invalid,
}

/// The first `-` in `b`, if any.
pub open spec fn spec_find_dash(b: Seq<u8>, i: int) -> Option<int>
    decreases b.len() - i,
{
    if i < 0 || i >= b.len() {
        None
    } else if b[i] == 45 {
        Some(i)
    } else {
        spec_find_dash(b, i + 1)
    }
}

/// Classifies the byte form of a stream-id argument.
pub open spec fn spec_validate(b: Seq<u8>) -> StreamIDState {
    if b == seq![42u8] {
        StreamIDState::GenerateMillisecond
    } else if b == seq![45u8] {
        StreamIDState::FirstStreamID(sid_zero())
    } else if b == seq![43u8] {
        StreamIDState::LastStreamID
    } else if b.len() >= 1 && all_digits(b) {
        if dec_val(b) <= u128::MAX {
            StreamIDState::MillisecondOnly(dec_val(b) as u128)
        } else {
            StreamIDState::Invalid
        }
    } else {
        match spec_find_dash(b, 0) {
            Some(p) => {
                let ms_part = b.subrange(0, p);
                let rest = b.subrange(p + 1, b.len() as int);
                if p >= 1 && all_digits(ms_part) && dec_val(ms_part) <= u128::MAX {
                    if rest == seq![42u8] {
                        StreamIDState::GenerateSequence(dec_val(ms_part) as u128)
                    } else if rest.len() >= 1 && all_digits(rest) && dec_val(rest) <= u64::MAX {
                        StreamIDState::Valid
                    } else {
                        StreamIDState::Invalid
                    }
                } else {
                    StreamIDState::Invalid
                }
            },
            None => StreamIDState::Invalid,
        }
    }
}

/// The id a valid `<ms>-<seq>` byte form denotes.
pub open spec fn spec_parsed_sid(b: Seq<u8>) -> StreamID {
    match spec_find_dash(b, 0) {
        Some(p) => StreamID {
            millisecond: dec_val(b.subrange(0, p)) as u128,
            sequence: dec_val(b.subrange(p + 1, b.len() as int)) as u64,
        },
        None => sid_zero(),
    }
}

/// The byte form of an id: `<ms>-<seq>` in decimal.
pub open spec fn spec_sid_bytes(id: StreamID) -> Seq<u8> {
    crate::resp::spec_dec_nat(id.millisecond as nat) + seq![45u8] + crate::resp::spec_dec_nat(
        id.sequence as nat,
    )
}

impl StreamID {
    /// A fresh id from its two components.
    pub fn new(ms: u128, seq: u64) -> (r: StreamID)
        ensures
            r.millisecond == ms,
            r.sequence == seq,
    {
        StreamID { millisecond: ms, sequence: seq }
    }

    /// The id after this one within the same millisecond, if the
    /// sequence numbers are not exhausted.
    pub fn next_sequence_id(&self) -> (r: Option<StreamID>)
        ensures
            match r {
                Some(id) => self.sequence < u64::MAX && id.millisecond == self.millisecond
                    && id.sequence == self.sequence + 1,
                None => self.sequence == u64::MAX,
            },
    {
        if self.sequence == u64::MAX {
            None
        } else {
            Some(StreamID { millisecond: self.millisecond, sequence: self.sequence + 1 })
        }
    }

    /// Strictly before `other`.
    pub fn lt(&self, other: &StreamID) -> (r: bool)
        ensures
            r == sid_lt(*self, *other),
    {
        self.millisecond < other.millisecond || (self.millisecond == other.millisecond
            && self.sequence < other.sequence)
    }

    /// Before or equal to `other`.
    pub fn le(&self, other: &StreamID) -> (r: bool)
        ensures
            r == sid_le(*self, *other),
    {
        self.lt(other) || (self.millisecond == other.millisecond && self.sequence
            == other.sequence)
    }

    /// Classifies a textual stream-id argument, character for
    /// character as its bytes.
    pub fn validate(s: &str) -> (r: StreamIDState)
        ensures
            r == spec_validate(bytes_of_chars(s@)),
    {
        let b = crate::text::string_to_bytes(s);
        Self::validate_bytes(&b)
    }

    /// Classifies the byte form of a stream-id argument.
    pub fn validate_bytes(b: &Vec<u8>) -> (r: StreamIDState)
        ensures
            r == spec_validate(b@),
    {
        let n = b.len();
        if n == 1 && b[0] == 42 {
            proof {
                assert(b@ =~= seq![42u8]);
            }
            return StreamIDState::GenerateMillisecond;
        }
        if n == 1 && b[0] == 45 {
            proof {
                assert(b@ =~= seq![45u8]);
            }
            return StreamIDState::FirstStreamID(StreamID { millisecond: 0, sequence: 0 });
        }
        if n == 1 && b[0] == 43 {
            proof {
                assert(b@ =~= seq![43u8]);
            }
            return StreamIDState::LastStreamID;
        }
        proof {
            if n != 1 {
                assert(b@ != seq![42u8]);
                assert(b@ != seq![45u8]);
                assert(b@ != seq![43u8]);
            } else {
                assert(b@ =~= seq![b@[0]]);
            }
        }
        if n >= 1 && crate::resp::check_all_digits(b, 0, n) {
            proof {
                assert(b@.subrange(0, n as int) =~= b@);
            }
            match parse_ms(b, 0, n) {
                Some(v) => {
                    return StreamIDState::MillisecondOnly(v);
                },
                None => {
                    return StreamIDState::Invalid;
                },
            }
        }
        match find_dash(b) {
            None => StreamIDState::Invalid,
            Some(p) => {
                let ghost ms_part = b@.subrange(0, p as int);
                let ghost rest = b@.subrange(p + 1, n as int);
                if p < 1 || !crate::resp::check_all_digits(b, 0, p) {
                    return StreamIDState::Invalid;
                }
                match parse_ms(b, 0, p) {
                    None => StreamIDState::Invalid,
                    Some(ms) => {
                        if p + 1 == n - 1 && b[p + 1] == 42 {
                            proof {
                                assert(rest =~= seq![42u8]);
                            }
                            StreamIDState::GenerateSequence(ms)
                        } else {
                            proof {
                                if rest == seq![42u8] {
                                    assert(rest.len() == 1);
                                    assert(rest[0] == b@[p + 1]);
                                    assert(rest[0] == 42);
                                    assert(false);
                                }
                            }
                            if p + 1 < n && crate::resp::check_all_digits(b, p + 1, n) {
                                match parse_ms(b, p + 1, n) {
                                    Some(seqv) if seqv <= u64::MAX as u128 => StreamIDState::Valid,
                                    _ => StreamIDState::Invalid,
                                }
                            } else {
                                StreamIDState::Invalid
                            }
                        }
                    },
                }
            },
        }
    }

    /// The id a valid `<ms>-<seq>` argument denotes.
    pub fn from_text(s: &str) -> (r: StreamID)
        requires
            spec_validate(bytes_of_chars(s@)) is Valid,
        ensures
            r == spec_parsed_sid(bytes_of_chars(s@)),
    {
        let b = crate::text::string_to_bytes(s);
        Self::from_bytes(&b)
    }

    /// The id a valid `<ms>-<seq>` byte form denotes.
    pub fn from_bytes(b: &Vec<u8>) -> (r: StreamID)
        requires
            spec_validate(b@) is Valid,
        ensures
            r == spec_parsed_sid(b@),
    {
        let n = b.len();
        match find_dash(b) {
            Some(p) => {
                let ghost ms_part = b@.subrange(0, p as int);
                let ghost rest = b@.subrange(p + 1, n as int);
                proof {
                    assert(all_digits(ms_part) && dec_val(ms_part) <= u128::MAX && all_digits(rest)
                        && dec_val(rest) <= u64::MAX);
                }
                let ms = match parse_ms(b, 0, p) {
                    Some(v) => v,
                    None => 0,  // unreachable: validation bounded the value
                };
                let sq = match parse_ms(b, p + 1, n) {
                    Some(v) => v as u64,
                    None => 0,  // unreachable: validation bounded the value
                };
                StreamID { millisecond: ms, sequence: sq }
            },
            None => StreamID { millisecond: 0, sequence: 0 },  // unreachable when validation passed
        }
    }

    /// The textual `<ms>-<seq>` form of this id.
    pub fn to_id_string(&self) -> (r: String)
        ensures
            r@ == chars_of_bytes(spec_sid_bytes(*self)),
    {
        let mut out: Vec<u8> = Vec::new();
        crate::resp::push_dec_u128(&mut out, self.millisecond);
        out.push(45u8);
        crate::resp::push_dec_u128(&mut out, self.sequence as u128);
        proof {
            assert(out@ =~= spec_sid_bytes(*self));
        }
        crate::text::bytes_to_string(&out)
    }
}

/// The first `-` in `b`, scanning forward.
fn find_dash(b: &Vec<u8>) -> (r: Option<usize>)
    ensures
        match r {
            Some(p) => p < b@.len() && b@[p as int] == 45 && spec_find_dash(b@, 0) == Some(
                p as int,
            ),
            None => spec_find_dash(b@, 0) is None,
        },
{
    let mut i: usize = 0;
    while i < b.len()
        invariant
            i <= b@.len(),
            forall|k: int| 0 <= k < i ==> b@[k] != 45,
        decreases b@.len() - i,
    {
        if b[i] == 45 {
            proof {
                lemma_find_dash_some(b@, 0, i as int);
            }
            return Some(i);
        }
        i = i + 1;
    }
    proof {
        lemma_find_dash_none(b@, 0);
    }
    None
}

/// A dash at `j` with none before it is the one the search finds.
proof fn lemma_find_dash_some(b: Seq<u8>, i: int, j: int)
    requires
        0 <= i <= j < b.len(),
        b[j] == 45,
        forall|k: int| i <= k < j ==> b[k] != 45,
    ensures
        spec_find_dash(b, i) == Some(j),
    decreases j - i,
{
    if i < j {
        lemma_find_dash_some(b, i + 1, j);
    }
}

/// With no dash at or after `i`, the search finds none.
proof fn lemma_find_dash_none(b: Seq<u8>, i: int)
    requires
        0 <= i,
        forall|k: int| i <= k < b.len() ==> b[k] != 45,
    ensures
        spec_find_dash(b, i) is None,
    decreases b.len() - i,
{
    if i < b.len() {
        lemma_find_dash_none(b, i + 1);
    }
}

/// Parses the digits `b[lo..hi]` as a millisecond value.
fn parse_ms(b: &Vec<u8>, lo: usize, hi: usize) -> (r: Option<u128>)
    requires
        lo <= hi <= b@.len(),
        all_digits(b@.subrange(lo as int, hi as int)),
    ensures
        match r {
            Some(v) => v as nat == dec_val(b@.subrange(lo as int, hi as int)) && dec_val(
                b@.subrange(lo as int, hi as int),
            ) <= u128::MAX,
            None => dec_val(b@.subrange(lo as int, hi as int)) > u128::MAX,
        },
{
    crate::resp::parse_val_u128(b, lo, hi)
}

/// An append was refused: the id was `0-0`, or at or below the
/// stream's last.
#[derive(Debug, Clone, Copy, PartialEq, Eq, Structural)]
pub struct StreamIdRejected;

/// One stored stream entry: its id and its field/value pairs, in the
/// order given.
pub struct StreamEntry {
    pub id: StreamID,
    pub fields: Vec<(String, String)>,
}

/// One entry of an `XRANGE`/`XREAD` result.
#[derive(Debug)]
pub struct StreamRange {
    pub stream_id: StreamID,
    pub hash: Vec<(String, String)>,
}

/// Entry ids strictly increase in insertion order, and the sentinel
/// `0-0` never occurs.
pub open spec fn ids_increasing(es: Seq<StreamEntry>) -> bool {
    (forall|i: int, j: int| 0 <= i < j < es.len() ==> sid_lt(es[i].id, es[j].id)) && (forall|
        i: int,
    |
        0 <= i < es.len() ==> (#[trigger] es[i]).id != sid_zero())
}

} // verus!

// ---------------------------------------------------------------------------
// The stream store
// ---------------------------------------------------------------------------

verus! {

use crate::assoc::{assoc_find_idx, lemma_assoc_absent, lemma_assoc_found, lemma_assoc_push,
    lemma_assoc_remove};
use crate::store::StoreEngine;

/// Whether `id` may be appended to the stream whose entries are `es`:
/// it must exceed the last id present.
pub open spec fn spec_may_append(es: Seq<StreamEntry>, id: StreamID) -> bool {
    es.len() == 0 || sid_lt(es.last().id, id)
}

/// The id the store would generate for timestamp `ts` on a stream
/// whose last id is `last` (`None` stands for an absent stream).
pub open spec fn spec_next_sid(last: Option<StreamID>, ts: u128) -> Option<StreamID> {
    match last {
        None => if ts == 0 {
            Some(StreamID { millisecond: 0, sequence: 1 })
        } else {
            Some(StreamID { millisecond: ts, sequence: 0 })
        },
        Some(l) => if l.millisecond > ts {
            None
        } else if l.millisecond < ts {
            Some(StreamID { millisecond: ts, sequence: 0 })
        } else if l.sequence < u64::MAX {
            Some(StreamID { millisecond: l.millisecond, sequence: (l.sequence + 1) as u64 })
        } else {
            None
        },
    }
}

/// The text of a field/value list.
pub open spec fn fields_view(fs: Seq<(String, String)>) -> Seq<(Seq<char>, Seq<char>)> {
    fs.map_values(|p: (String, String)| (p.0@, p.1@))
}

/// One range result, mathematically: the id and the fields' text.
pub open spec fn range_item(e: StreamEntry) -> (StreamID, Seq<(Seq<char>, Seq<char>)>) {
    (e.id, fields_view(e.fields@))
}

/// The text of a range result list.
pub open spec fn ranges_view(rs: Seq<StreamRange>) -> Seq<(StreamID, Seq<(Seq<char>, Seq<char>)>)> {
    rs.map_values(|r: StreamRange| (r.stream_id, fields_view(r.hash@)))
}

/// The entries of `es` with `start <= id <= end`, oldest first.
pub open spec fn spec_range(es: Seq<StreamEntry>, start: StreamID, end: StreamID) -> Seq<
    (StreamID, Seq<(Seq<char>, Seq<char>)>),
>
    decreases es.len(),
{
    if es.len() == 0 {
        Seq::empty()
    } else {
        spec_range(es.drop_last(), start, end) + (if sid_le(start, es.last().id) && sid_le(
            es.last().id,
            end,
        ) {
            seq![range_item(es.last())]
        } else {
            Seq::empty()
        })
    }
}

/// The entries of `es` with `start < id`, oldest first.
pub open spec fn spec_after(es: Seq<StreamEntry>, start: StreamID) -> Seq<
    (StreamID, Seq<(Seq<char>, Seq<char>)>),
>
    decreases es.len(),
{
    if es.len() == 0 {
        Seq::empty()
    } else {
        spec_after(es.drop_last(), start) + (if sid_lt(start, es.last().id) {
            seq![range_item(es.last())]
        } else {
            Seq::empty()
        })
    }
}

/// The stream store: per-key ordered entries with strictly increasing
/// ids; `0-0` is never stored.
pub trait StreamEngine: Sized {
    /// The streams this store holds.
    spec fn streams(&self) -> Map<Seq<char>, Vec<StreamEntry>>;

    /// The store's invariant.
    spec fn stream_wf(&self) -> bool;

    /// Everything else the store holds; stream operations leave it
    /// alone.
    spec fn stream_frame(&self) -> (
        Vec<(String, String)>,
        crate::store::ExpiryIndex,
        crate::replication::NodeInfo,
        crate::rdb::RdbConf,
        crate::replication::ReplicaType,
        crate::replication::MasterInfo,
        crate::replication::SlaveInfo,
    );

    /// The last id of the stream under `k`, which is the greatest
    /// present, or `None` when the stream is absent.
    fn get_last_stream_id(&self, k: &str) -> (r: Option<StreamID>)
        requires
            self.stream_wf(),
        ensures
            match r {
                Some(id) => self.streams().dom().contains(k@) && self.streams()[k@]@.len() > 0
                    && id == self.streams()[k@]@.last().id,
                None => !self.streams().dom().contains(k@),
            },
    ;

    /// The entries of the stream under `k`, in insertion order.
    fn get_stream_key<'a>(&'a self, k: &str) -> (r: Option<&'a Vec<StreamEntry>>)
        requires
            self.stream_wf(),
        ensures
            match r {
                Some(es) => self.streams().dom().contains(k@) && es == self.streams()[k@],
                None => !self.streams().dom().contains(k@),
            },
    ;

    /// Whether `id` may be appended to the stream under `k`.
    fn valid_stream_id(&self, k: &str, id: StreamID) -> (r: bool)
        requires
            self.stream_wf(),
        ensures
            r == (!self.streams().dom().contains(k@) || spec_may_append(self.streams()[k@]@, id)),
    ;

    /// The id generated for `<ts>-*` on the stream under `k`.
    fn next_stream_sequence_id(&self, k: &str, ts: u128) -> (r: Option<StreamID>)
        requires
            self.stream_wf(),
        ensures
            ({
                let last = if self.streams().dom().contains(k@) && self.streams()[k@]@.len() > 0 {
                    Some(self.streams()[k@]@.last().id)
                } else {
                    None
                };
                r == spec_next_sid(last, ts)
            }),
    ;

    /// Appends an entry and returns the textual form of its id; an id
    /// at or below the stream's last, or the sentinel `0-0`, is
    /// refused and the stream left as it was.  Entry ids therefore
    /// increase strictly in insertion order.
    fn set_stream_key(&mut self, k: String, id: StreamID, fields: Vec<(String, String)>) -> (r:
        Result<String, StreamIdRejected>)
        requires
            old(self).stream_wf(),
        ensures
            final(self).stream_wf(),
            final(self).stream_frame() == old(self).stream_frame(),
            ({
                let acceptable = (!old(self).streams().dom().contains(k@) || spec_may_append(
                    old(self).streams()[k@]@,
                    id,
                )) && id != sid_zero();
                match r {
                    Ok(text) => acceptable && final(self).streams().dom() == old(self).streams().dom().insert(k@) && final(self).streams()[k@]@ == (if old(self).streams().dom().contains(k@) {
                        old(self).streams()[k@]@
                    } else {
                        Seq::<StreamEntry>::empty()
                    }).push((StreamEntry { id, fields })) && (forall|k2: Seq<char>|
                        k2 != k@ && old(self).streams().dom().contains(k2) ==> final(self).streams()[k2] == old(self).streams()[k2]) && text@
                        == crate::text::chars_of_bytes(spec_sid_bytes(id)),
                    Err(_) => !acceptable && *final(self) == *old(self),
                }
            }),
    ;

    /// The entries with `start <= id <= end`, oldest first.
    fn get_stream_by_range(&self, k: &str, start: &StreamID, end: &StreamID) -> (r: Vec<
        StreamRange,
    >)
        requires
            self.stream_wf(),
        ensures
            self.streams().dom().contains(k@) ==> ranges_view(r@) == spec_range(
                self.streams()[k@]@,
                *start,
                *end,
            ),
            !self.streams().dom().contains(k@) ==> r@.len() == 0,
    ;

    /// The entries with `start < id`, oldest first.
    fn get_xread(&self, k: &str, start: &StreamID) -> (r: Vec<StreamRange>)
        requires
            self.stream_wf(),
        ensures
            self.streams().dom().contains(k@) ==> ranges_view(r@) == spec_after(
                self.streams()[k@]@,
                *start,
            ),
            !self.streams().dom().contains(k@) ==> r@.len() == 0,
    ;
}

impl StreamEngine for StoreEngine {
    open spec fn streams(&self) -> Map<Seq<char>, Vec<StreamEntry>> {
        self.streams_view()
    }

    open spec fn stream_wf(&self) -> bool {
        self.inv()
    }

    open spec fn stream_frame(&self) -> (
        Vec<(String, String)>,
        crate::store::ExpiryIndex,
        crate::replication::NodeInfo,
        crate::rdb::RdbConf,
        crate::replication::ReplicaType,
        crate::replication::MasterInfo,
        crate::replication::SlaveInfo,
    ) {
        (
            self.dict,
            self.expiring_queue,
            self.node_info,
            self.rdb_info,
            self.replica_info,
            self.master_info,
            self.slave_info,
        )
    }

    fn get_last_stream_id(&self, k: &str) -> (r: Option<StreamID>)
    {
        let ks = k.to_owned();
        match assoc_find_idx(&self.stream_dict, &ks) {
            Some(i) => {
                proof {
                    lemma_assoc_found(self.stream_dict@, i as int);
                }
                let es = &self.stream_dict[i].1;
                Some(es[es.len() - 1].id)
            },
            None => {
                proof {
                    lemma_assoc_absent(self.stream_dict@, k@);
                }
                None
            },
        }
    }

    fn get_stream_key<'a>(&'a self, k: &str) -> (r: Option<&'a Vec<StreamEntry>>)
    {
        let ks = k.to_owned();
        match assoc_find_idx(&self.stream_dict, &ks) {
            Some(i) => {
                proof {
                    lemma_assoc_found(self.stream_dict@, i as int);
                }
                Some(&self.stream_dict[i].1)
            },
            None => {
                proof {
                    lemma_assoc_absent(self.stream_dict@, k@);
                }
                None
            },
        }
    }

    fn valid_stream_id(&self, k: &str, id: StreamID) -> (r: bool)
    {
        match self.get_last_stream_id(k) {
            Some(last) => last.lt(&id),
            None => true,
        }
    }

    fn next_stream_sequence_id(&self, k: &str, ts: u128) -> (r: Option<StreamID>)
    {
        match self.get_last_stream_id(k) {
            Some(last) => {
                if last.millisecond > ts {
                    None
                } else if last.millisecond < ts {
                    Some(StreamID::new(ts, 0))
                } else {
                    last.next_sequence_id()
                }
            },
            None => {
                if ts == 0 {
                    Some(StreamID::new(0, 1))
                } else {
                    Some(StreamID::new(ts, 0))
                }
            },
        }
    }

    fn set_stream_key(&mut self, k: String, id: StreamID, fields: Vec<(String, String)>) -> (r:
        Result<String, StreamIdRejected>)
    {
        if (id.millisecond == 0 && id.sequence == 0) || !self.valid_stream_id(k.as_str(), id) {
            return Err(StreamIdRejected);
        }
        let entry = StreamEntry { id, fields };
        let ghost before = self.stream_dict@;
        match assoc_find_idx(&self.stream_dict, &k) {
            Some(i) => {
                proof {
                    lemma_assoc_found(before, i as int);
                    lemma_assoc_remove(before, i as int);
                }
                let mut pair = self.stream_dict.remove(i);
                let ghost mid = self.stream_dict@;
                let ghost es_old = old(self).streams()[k@]@;
                pair.1.push(entry);
                proof {
                    assert(forall|j: int|
                        0 <= j < mid.len() ==> (#[trigger] mid[j]).0@ != pair.0@);
                    lemma_assoc_push(mid, pair);
                }
                self.stream_dict.push(pair);
                proof {
                    assert(self.streams().dom() =~= old(self).streams().dom().insert(k@));
                    let es_new = self.streams()[k@]@;
                    assert(es_new =~= es_old.push(entry));
                    assert forall|a: int, b: int| 0 <= a < b < es_new.len() implies sid_lt(
                        es_new[a].id,
                        es_new[b].id,
                    ) by {
                        if b < es_new.len() - 1 {
                            assert(sid_lt(es_old[a].id, es_old[b].id));
                        } else if a < es_new.len() - 1 {
                            if a < es_old.len() - 1 {
                                assert(sid_lt(es_old[a].id, es_old.last().id));
                            }
                        }
                    }
                    assert(ids_increasing(es_new));
                    assert forall|j: int| 0 <= j < self.stream_dict@.len() implies ids_increasing(
                        (#[trigger] self.stream_dict@[j]).1@,
                    ) && self.stream_dict@[j].1@.len() >= 1 by {
                        if j < self.stream_dict@.len() - 1 {
                            let p = self.stream_dict@[j];
                            if j < i {
                                assert(before[j] == p);
                                assert(ids_increasing(before[j].1@));
                            } else {
                                assert(before[j + 1] == p);
                                assert(ids_increasing(before[j + 1].1@));
                            }
                        } else {
                            assert(self.stream_dict@[j].1@ == es_new);
                        }
                    }
                }
                Ok(id.to_id_string())
            },
            None => {
                proof {
                    lemma_assoc_absent(before, k@);
                }
                let mut es: Vec<StreamEntry> = Vec::new();
                es.push(entry);
                let pair = (k, es);
                proof {
                    lemma_assoc_push(before, pair);
                }
                self.stream_dict.push(pair);
                proof {
                    assert(self.streams().dom() =~= old(self).streams().dom().insert(pair.0@));
                    let es_new = self.streams()[pair.0@]@;
                    assert(es_new.len() == 1 && es_new[0] == entry);
                    assert(ids_increasing(es_new));
                    assert forall|j: int| 0 <= j < self.stream_dict@.len() implies ids_increasing(
                        (#[trigger] self.stream_dict@[j]).1@,
                    ) && self.stream_dict@[j].1@.len() >= 1 by {
                        if j < self.stream_dict@.len() - 1 {
                            assert(self.stream_dict@[j] == before[j]);
                            assert(ids_increasing(before[j].1@));
                        } else {
                            assert(self.stream_dict@[j].1@ == es_new);
                        }
                    }
                }
                Ok(id.to_id_string())
            },
        }
    }

    fn get_stream_by_range(&self, k: &str, start: &StreamID, end: &StreamID) -> (r: Vec<
        StreamRange,
    >)
    {
        let mut out: Vec<StreamRange> = Vec::new();
        match self.get_stream_key(k) {
            None => out,
            Some(es) => {
                let ghost all = es@;
                let mut i: usize = 0;
                proof {
                    assert(spec_range(all.take(0), *start, *end) =~= Seq::<
                        (StreamID, Seq<(Seq<char>, Seq<char>)>),
                    >::empty());
                    assert(ranges_view(out@) =~= Seq::<
                        (StreamID, Seq<(Seq<char>, Seq<char>)>),
                    >::empty());
                }
                while i < es.len()
                    invariant
                        i <= all.len(),
                        es@ == all,
                        ranges_view(out@) == spec_range(all.take(i as int), *start, *end),
                    decreases all.len() - i,
                {
                    let e = &es[i];
                    proof {
                        assert(all.take(i + 1).drop_last() =~= all.take(i as int));
                        assert(all.take(i + 1).last() == all[i as int]);
                    }
                    if start.le(&e.id) && e.id.le(end) {
                        let nr = StreamRange { stream_id: e.id, hash: clone_fields(&e.fields) };
                        let ghost snap = out@;
                        out.push(nr);
                        proof {
                            assert(fields_view(nr.hash@) =~= fields_view(all[i as int].fields@));
                            assert(ranges_view(out@) =~= ranges_view(snap).push(
                                range_item(all[i as int]),
                            ));
                        }
                    }
                    proof {
                        assert(ranges_view(out@) =~= spec_range(all.take(i + 1), *start, *end));
                    }
                    i = i + 1;
                }
                proof {
                    assert(all.take(all.len() as int) =~= all);
                }
                out
            },
        }
    }

    fn get_xread(&self, k: &str, start: &StreamID) -> (r: Vec<StreamRange>)
    {
        let mut out: Vec<StreamRange> = Vec::new();
        match self.get_stream_key(k) {
            None => out,
            Some(es) => {
                let ghost all = es@;
                let mut i: usize = 0;
                proof {
                    assert(spec_after(all.take(0), *start) =~= Seq::<
                        (StreamID, Seq<(Seq<char>, Seq<char>)>),
                    >::empty());
                    assert(ranges_view(out@) =~= Seq::<
                        (StreamID, Seq<(Seq<char>, Seq<char>)>),
                    >::empty());
                }
                while i < es.len()
                    invariant
                        i <= all.len(),
                        es@ == all,
                        ranges_view(out@) == spec_after(all.take(i as int), *start),
                    decreases all.len() - i,
                {
                    let e = &es[i];
                    proof {
                        assert(all.take(i + 1).drop_last() =~= all.take(i as int));
                        assert(all.take(i + 1).last() == all[i as int]);
                    }
                    if start.lt(&e.id) {
                        let nr = StreamRange { stream_id: e.id, hash: clone_fields(&e.fields) };
                        let ghost snap = out@;
                        out.push(nr);
                        proof {
                            assert(fields_view(nr.hash@) =~= fields_view(all[i as int].fields@));
                            assert(ranges_view(out@) =~= ranges_view(snap).push(
                                range_item(all[i as int]),
                            ));
                        }
                    }
                    proof {
                        assert(ranges_view(out@) =~= spec_after(all.take(i + 1), *start));
                    }
                    i = i + 1;
                }
                proof {
                    assert(all.take(all.len() as int) =~= all);
                }
                out
            },
        }
    }
}

/// Copies a field/value list pair by pair.
pub fn clone_fields(fs: &Vec<(String, String)>) -> (r: Vec<(String, String)>)
    ensures
        r@.len() == fs@.len(),
        forall|i: int|
            0 <= i < fs@.len() ==> (#[trigger] r@[i]).0@ == fs@[i].0@ && r@[i].1@ == fs@[i].1@,
        fields_view(r@) == fields_view(fs@),
{
    let mut out: Vec<(String, String)> = Vec::new();
    let mut i: usize = 0;
    while i < fs.len()
        invariant
            i <= fs@.len(),
            out@.len() == i,
            forall|j: int|
                0 <= j < i ==> (#[trigger] out@[j]).0@ == fs@[j].0@ && out@[j].1@ == fs@[j].1@,
        decreases fs@.len() - i,
    {
        out.push((fs[i].0.clone(), fs[i].1.clone()));
        i = i + 1;
    }
    proof {
        assert(fields_view(out@) =~= fields_view(fs@));
    }
    out
}

} // verus!

verus! {

/// In every stream the entry ids strictly increase in insertion order
/// — so the last entry carries the greatest id — and the sentinel
/// `0-0` never occurs.
pub proof fn lemma_stream_ids_increase(db: StoreEngine, k: Seq<char>)
    requires
        db.inv(),
        db.streams_view().dom().contains(k),
    ensures
        ids_increasing(db.streams_view()[k]@),
        forall|i: int|
            0 <= i < db.streams_view()[k]@.len() ==> sid_le(
                (#[trigger] db.streams_view()[k]@[i]).id,
                db.streams_view()[k]@.last().id,
            ),
{
    crate::assoc::lemma_assoc_dom(db.stream_dict@);
    let i = choose|i: int|
        0 <= i < db.stream_dict@.len() && (#[trigger] db.stream_dict@[i]).0@ == k;
    crate::assoc::lemma_assoc_found(db.stream_dict@, i);
    assert(ids_increasing(db.stream_dict@[i].1@));
}

} // verus!

verus! {

/// Generating an id with `*` takes the clock with sequence zero on an
/// empty stream, and a second generation at the same millisecond steps
/// the sequence to one.  (At millisecond zero the first generated id
/// is `0-1`, since `0-0` is the sentinel.)
pub proof fn lemma_generated_ids_at_clock(now: u64)
    requires
        now > 0,
    ensures
        spec_next_sid(None, now as u128) == Some(
            StreamID { millisecond: now as u128, sequence: 0 },
        ),
        spec_next_sid(
            Some(StreamID { millisecond: now as u128, sequence: 0 }),
            now as u128,
        ) == Some(StreamID { millisecond: now as u128, sequence: 1 }),
{
}

} // verus!
