//! Parsed client commands and their serialized lengths.
//!
//! [`command_parser`] reads a byte stream through the RESP decoder and
//! classifies each frame as a command; [`count_resp_command_type_offset`]
//! gives the exact number of bytes a command occupies on the wire as an
//! array of bulk strings — the count replication offsets are made of.

use vstd::prelude::*;
use crate::resp::{all_digits, dec_val, spec_dec_nat, spec_crlf, spec_encode, spec_encode_seq,
    Decoded, FrameStep, FrameView, RespFrame};
use crate::text::{bytes_of_chars, chars_of_bytes, spec_lower};

verus! {

/// The reply `+OK\r\n`.
pub const RESP_OK: &'static str = "+OK\r\n";

/// The reply `-ERR\r\n`.
pub const RESP_ERR: &'static str = "-ERR\r\n";

/// The reply `+PONG\r\n`.
pub const RESP_PONG: &'static str = "+PONG\r\n";

/// The reply `*0\r\n`, an empty array.
pub const RESP_EMPTY: &'static str = "*0\r\n";

/// One parsed command, as the replication stream and the handshake
/// client see them.
#[derive(Debug, PartialEq, Eq)]
pub enum RespCommandType {
    Error,
    Get(String),
    SetKv(String, String),
    SetPx(String, String, u64),
    Ping,
    Replconf(String),
}

/// A command's mathematical shape: payloads as byte strings.
pub enum CmdView {
    VError,
    VGet(Seq<u8>),
    VSet(Seq<u8>, Seq<u8>),
    VSetPx(Seq<u8>, Seq<u8>, u64),
    VPing,
    VReplconf(Seq<u8>),
}

/// The mathematical value of a command; `String` payloads count as
/// their bytes, character for character.
pub open spec fn cmd_view(c: RespCommandType) -> CmdView {
    match c {
        RespCommandType::Error => CmdView::VError,
        RespCommandType::Get(k) => CmdView::VGet(bytes_of_chars(k@)),
        RespCommandType::SetKv(k, v) => CmdView::VSet(bytes_of_chars(k@), bytes_of_chars(v@)),
        RespCommandType::SetPx(k, v, t) => CmdView::VSetPx(
            bytes_of_chars(k@),
            bytes_of_chars(v@),
            t,
        ),
        RespCommandType::Ping => CmdView::VPing,
        RespCommandType::Replconf(k) => CmdView::VReplconf(bytes_of_chars(k@)),
    }
}

/// Every text a command carries is one-byte characters, so `cmd_view`
/// pins the strings exactly.
pub open spec fn cmd_chars_small(c: RespCommandType) -> bool {
    match c {
        RespCommandType::Error => true,
        RespCommandType::Get(k) => crate::text::small_chars(k@),
        RespCommandType::SetKv(k, v) => crate::text::small_chars(k@) && crate::text::small_chars(
            v@,
        ),
        RespCommandType::SetPx(k, v, _) => crate::text::small_chars(k@)
            && crate::text::small_chars(v@),
        RespCommandType::Ping => true,
        RespCommandType::Replconf(w) => crate::text::small_chars(w@),
    }
}

/// Whether byte word `w` spells `lit`, ignoring ASCII letter case.
pub open spec fn word_is(w: Seq<u8>, lit: Seq<char>) -> bool {
    spec_lower(w) == spec_lower(bytes_of_chars(lit))
}

/// A byte word holding a decimal number that fits `u64`.
pub open spec fn is_u64_digits(b: Seq<u8>) -> bool {
    b.len() >= 1 && all_digits(b) && dec_val(b) <= u64::MAX
}

/// What a list of bulk-string words means as a command: the word list
/// of `SET k v [PX ms]`, `GET k`, `PING` or `REPLCONF GETACK`, and
/// everything else is the unknown command.
pub open spec fn spec_process(ws: Seq<Seq<u8>>) -> CmdView {
    if ws.len() == 0 {
        CmdView::VError
    } else if word_is(ws[0], "ping"@) {
        CmdView::VPing
    } else if word_is(ws[0], "set"@) {
        if ws.len() == 3 {
            CmdView::VSet(ws[1], ws[2])
        } else if ws.len() == 5 && word_is(ws[3], "px"@) && is_u64_digits(ws[4]) {
            CmdView::VSetPx(ws[1], ws[2], dec_val(ws[4]) as u64)
        } else {
            CmdView::VError
        }
    } else if word_is(ws[0], "get"@) {
        if ws.len() == 2 {
            CmdView::VGet(ws[1])
        } else {
            CmdView::VError
        }
    } else if word_is(ws[0], "replconf"@) {
        if ws.len() >= 3 && word_is(ws[1], "getack"@) {
            CmdView::VReplconf(bytes_of_chars("getack"@))
        } else {
            CmdView::VError
        }
    } else {
        CmdView::VError
    }
}

/// What one decoded frame means as a command: an array of bulk strings
/// is a word list; a lone simple or bulk string is a one-word list;
/// any other frame is no command.
pub open spec fn frame_to_cmd(f: FrameView) -> CmdView {
    match f {
        FrameView::Simple(s) => spec_process(seq![s]),
        FrameView::Bulk(b) => spec_process(seq![b]),
        FrameView::Array(items) => if forall|i: int|
            0 <= i < items.len() ==> (#[trigger] items[i]) is Bulk {
            spec_process(Seq::new(items.len(), |i: int| items[i]->Bulk_0))
        } else {
            CmdView::VError
        },
        _ => CmdView::VError,
    }
}

/// The commands a byte stream holds: each complete frame in turn, read
/// as a command; a stream that ends mid-frame or holds a malformed
/// frame yields nothing.
pub open spec fn spec_commands(b: Seq<u8>) -> Option<Seq<CmdView>>
    decreases b.len(),
{
    if b.len() == 0 {
        Some(Seq::empty())
    } else {
        match crate::resp::spec_decode(b) {
            FrameStep::Found { frame, used } => if 1 <= used <= b.len() {
                match spec_commands(b.subrange(used, b.len() as int)) {
                    Some(rest) => Some(seq![frame_to_cmd(frame)] + rest),
                    None => None,
                }
            } else {
                None
            },
            FrameStep::More => None,
            FrameStep::Bad => None,
        }
    }
}

/// The byte stream was not a sequence of complete, well-formed frames.
#[derive(Debug, PartialEq, Eq)]
pub struct ParseError;

} // verus!

// ---------------------------------------------------------------------------
// Executable parsing
// ---------------------------------------------------------------------------

verus! {

/// Classifies one word list, given as byte words.
fn process_words(words: Vec<Vec<u8>>) -> (r: RespCommandType)
    ensures
        cmd_view(r) == spec_process(words@.map_values(|w: Vec<u8>| w@)),
        cmd_chars_small(r),
{
    let ghost ws = words@.map_values(|w: Vec<u8>| w@);
    if words.len() == 0 {
        return RespCommandType::Error;
    }
    let w0 = &words[0];
    if crate::text::eq_ignore_case(w0, "ping") {
        RespCommandType::Ping
    } else if crate::text::eq_ignore_case(w0, "set") {
        if words.len() == 3 {
            let k = crate::text::bytes_to_string(&words[1]);
            let v = crate::text::bytes_to_string(&words[2]);
            proof {
                crate::text::lemma_bytes_chars_bytes(ws[1]);
                crate::text::lemma_bytes_chars_bytes(ws[2]);
                crate::text::lemma_chars_of_bytes_small(ws[1]);
                crate::text::lemma_chars_of_bytes_small(ws[2]);
            }
            RespCommandType::SetKv(k, v)
        } else if words.len() == 5 && crate::text::eq_ignore_case(&words[3], "px") {
            let t = &words[4];
            if t.len() >= 1 && crate::resp::check_all_digits(t, 0, t.len()) {
                proof {
                    assert(t@.subrange(0, t@.len() as int) =~= t@);
                }
                match crate::resp::parse_val(t, 0, t.len()) {
                    Some(ms) => {
                        let k = crate::text::bytes_to_string(&words[1]);
                        let v = crate::text::bytes_to_string(&words[2]);
                        proof {
                            crate::text::lemma_bytes_chars_bytes(ws[1]);
                            crate::text::lemma_bytes_chars_bytes(ws[2]);
                            crate::text::lemma_chars_of_bytes_small(ws[1]);
                            crate::text::lemma_chars_of_bytes_small(ws[2]);
                        }
                        RespCommandType::SetPx(k, v, ms)
                    },
                    None => RespCommandType::Error,
                }
            } else {
                RespCommandType::Error
            }
        } else {
            RespCommandType::Error
        }
    } else if crate::text::eq_ignore_case(w0, "get") {
        if words.len() == 2 {
            let k = crate::text::bytes_to_string(&words[1]);
            proof {
                crate::text::lemma_bytes_chars_bytes(ws[1]);
                crate::text::lemma_chars_of_bytes_small(ws[1]);
            }
            RespCommandType::Get(k)
        } else {
            RespCommandType::Error
        }
    } else if crate::text::eq_ignore_case(w0, "replconf") {
        if words.len() >= 3 && crate::text::eq_ignore_case(&words[1], "getack") {
            proof {
                reveal_strlit("getack");
                assert forall|i: int| 0 <= i < "getack"@.len() implies #[trigger] ("getack"@[i]
                    as u32) < 256 by {
                    if i == 0 {
                        assert("getack"@[0] == 'g');
                    } else if i == 1 {
                        assert("getack"@[1] == 'e');
                    } else if i == 2 {
                        assert("getack"@[2] == 't');
                    } else if i == 3 {
                        assert("getack"@[3] == 'a');
                    } else if i == 4 {
                        assert("getack"@[4] == 'c');
                    } else {
                        assert("getack"@[5] == 'k');
                    }
                }
            }
            RespCommandType::Replconf("getack".to_owned())
        } else {
            RespCommandType::Error
        }
    } else {
        RespCommandType::Error
    }
}

/// Classifies one word list given as strings, character for character
/// as their bytes.
pub fn process_command_vec(cmd_vec: Vec<String>) -> (r: RespCommandType)
    ensures
        cmd_view(r) == spec_process(cmd_vec@.map_values(|s: String| bytes_of_chars(s@))),
        cmd_chars_small(r),
{
    let ghost ws = cmd_vec@.map_values(|s: String| bytes_of_chars(s@));
    let mut words: Vec<Vec<u8>> = Vec::new();
    let mut i: usize = 0;
    while i < cmd_vec.len()
        invariant
            i <= cmd_vec@.len(),
            words@.len() == i,
            forall|j: int| 0 <= j < i ==> (#[trigger] words@[j])@ == bytes_of_chars(cmd_vec@[j]@),
        decreases cmd_vec@.len() - i,
    {
        words.push(crate::text::string_to_bytes(cmd_vec[i].as_str()));
        i = i + 1;
    }
    let r = process_words(words);
    proof {
        assert(ws =~= cmd_vec@.map_values(|s: String| bytes_of_chars(s@)));
    }
    r
}

/// Turns one decoded frame into a command.
pub fn frame_into_cmd(f: RespFrame) -> (r: RespCommandType)
    ensures
        cmd_view(r) == frame_to_cmd(crate::resp::frame_view(f)),
        cmd_chars_small(r),
{
    match f {
        RespFrame::Simple(s) => {
            let ghost sv = s@;
            let mut words: Vec<Vec<u8>> = Vec::new();
            words.push(s);
            proof {
                assert(words@.map_values(|w: Vec<u8>| w@) =~= seq![sv]);
            }
            process_words(words)
        },
        RespFrame::Bulk(b) => {
            let ghost bv = b@;
            let mut words: Vec<Vec<u8>> = Vec::new();
            words.push(b);
            proof {
                assert(words@.map_values(|w: Vec<u8>| w@) =~= seq![bv]);
            }
            process_words(words)
        },
        RespFrame::Array(items) => {
            let ghost ivs = crate::resp::views_of(items@);
            proof {
                crate::resp::lemma_views_of(items@);
            }
            let n = items.len();
            let mut words: Vec<Vec<u8>> = Vec::new();
            let mut i: usize = 0;
            while i < n
                invariant
                    i <= n,
                    n == items@.len(),
                    ivs == crate::resp::views_of(items@),
                    crate::resp::frame_view(f) == FrameView::Array(ivs),
                    ivs.len() == n,
                    words@.len() == i,
                    forall|j: int| 0 <= j < i ==> (#[trigger] ivs[j]) is Bulk,
                    forall|j: int|
                        0 <= j < i ==> (#[trigger] words@[j])@ == ivs[j]->Bulk_0,
                decreases n - i,
            {
                proof {
                    crate::resp::lemma_views_of(items@);
                    assert(ivs[i as int] == crate::resp::frame_view(items@[i as int]));
                }
                let bulk_payload = match &items[i] {
                    RespFrame::Bulk(b) => Some(crate::resp::copy_range(b, 0, b.len())),
                    _ => None,
                };
                match bulk_payload {
                    Some(w) => {
                        proof {
                            assert(w@ =~= ivs[i as int]->Bulk_0);
                        }
                        words.push(w);
                    },
                    None => {
                        proof {
                            assert(crate::resp::frame_view(f) == FrameView::Array(ivs));
                            assert(!(ivs[i as int] is Bulk));
                            assert(!(forall|j: int|
                                0 <= j < ivs.len() ==> (#[trigger] ivs[j]) is Bulk)) by {
                                assert(0 <= i < ivs.len() && !(ivs[i as int] is Bulk));
                            }
                        }
                        return RespCommandType::Error;
                    },
                }
                i = i + 1;
            }
            proof {
                assert(forall|j: int| 0 <= j < ivs.len() ==> (#[trigger] ivs[j]) is Bulk);
                assert(words@.map_values(|w: Vec<u8>| w@) =~= Seq::new(
                    ivs.len(),
                    |j: int| ivs[j]->Bulk_0,
                ));
            }
            process_words(words)
        },
        RespFrame::Integer(_) => RespCommandType::Error,
        RespFrame::Error(_) => RespCommandType::Error,
        RespFrame::NullBulk => RespCommandType::Error,
        RespFrame::NullArray => RespCommandType::Error,
    }
}

/// Parses a byte stream as a sequence of commands: each complete RESP
/// frame in order, read as a command.  A truncated or malformed stream
/// is rejected whole.
pub fn command_parser(input: &Vec<u8>) -> (r: Result<Vec<RespCommandType>, ParseError>)
    ensures
        match r {
            Ok(cmds) => spec_commands(input@) == Some(
                cmds@.map_values(|c: RespCommandType| cmd_view(c)),
            ) && (forall|i: int| 0 <= i < cmds@.len() ==> cmd_chars_small(#[trigger] cmds@[i])),
            Err(e) => spec_commands(input@) is None,
        },
{
    proof {
        assert(input@.subrange(0, input@.len() as int) =~= input@);
    }
    match parse_commands_from(input, 0) {
        Some(cmds) => Ok(cmds),
        None => Err(ParseError),
    }
}

/// Parses every command from `from` to the end of `input`.
fn parse_commands_from(input: &Vec<u8>, from: usize) -> (r: Option<Vec<RespCommandType>>)
    requires
        from <= input@.len(),
    ensures
        ({
            let b = input@.subrange(from as int, input@.len() as int);
            match r {
                Some(cmds) => spec_commands(b) == Some(
                    cmds@.map_values(|c: RespCommandType| cmd_view(c)),
                ) && (forall|i: int| 0 <= i < cmds@.len() ==> cmd_chars_small(#[trigger] cmds@[i])),
                None => spec_commands(b) is None,
            }
        }),
    decreases input@.len() - from,
{
    let ghost b = input@.subrange(from as int, input@.len() as int);
    if from == input.len() {
        proof {
            assert(b.len() == 0);
            assert(Seq::<RespCommandType>::empty().map_values(|c: RespCommandType| cmd_view(c))
                =~= Seq::<CmdView>::empty());
        }
        return Some(Vec::new());
    }
    match crate::resp::decode_frame(input, from) {
        Decoded::Found(frame, end) => {
            let ghost fv = crate::resp::frame_view(frame);
            let cmd = frame_into_cmd(frame);
            proof {
                assert(b.subrange(end - from, b.len() as int) =~= input@.subrange(
                    end as int,
                    input@.len() as int,
                ));
            }
            match parse_commands_from(input, end) {
                Some(mut cmds) => {
                    let ghost before = cmds@;
                    cmds.insert(0, cmd);
                    proof {
                        assert(cmds@ =~= seq![cmd] + before);
                        assert forall|i: int| 0 <= i < cmds@.len() implies cmd_chars_small(
                            #[trigger] cmds@[i],
                        ) by {
                            if i > 0 {
                                assert(cmds@[i] == before[i - 1]);
                            } else {
                                assert(cmds@[0] == cmd);
                            }
                        }
                        assert(cmds@.map_values(|c: RespCommandType| cmd_view(c)) =~= seq![
                            cmd_view(cmd),
                        ] + before.map_values(|c: RespCommandType| cmd_view(c)));
                    }
                    Some(cmds)
                },
                None => None,
            }
        },
        Decoded::More => None,
        Decoded::Bad => None,
    }
}

} // verus!

// ---------------------------------------------------------------------------
// Serialized lengths: what a command occupies on the wire
// ---------------------------------------------------------------------------

verus! {

/// The wire length of one bulk string of `n` payload bytes:
/// `$<digits>\r\n<payload>\r\n`.
pub open spec fn bulk_wire_len(n: nat) -> nat {
    1 + spec_dec_nat(n).len() + 2 + n + 2
}

/// The summed wire lengths of bulk strings with these payload lengths.
pub open spec fn sum_bulk_lens(lens: Seq<nat>) -> nat
    decreases lens.len(),
{
    if lens.len() == 0 {
        0
    } else {
        bulk_wire_len(lens[0]) + sum_bulk_lens(lens.subrange(1, lens.len() as int))
    }
}

/// The wire length of a RESP array of bulk strings with these payload
/// lengths: `*<count>\r\n` and then the bulks.
pub open spec fn array_wire_len(lens: Seq<nat>) -> nat {
    1 + spec_dec_nat(lens.len() as nat).len() + 2 + sum_bulk_lens(lens)
}

/// The payload lengths of the array-of-bulks form of a command, as the
/// master propagates it (`SET k v`, `SET k v PX ms`, ...).
pub open spec fn spec_cmd_lens(c: RespCommandType) -> Seq<nat> {
    match c {
        RespCommandType::Error => Seq::empty(),
        RespCommandType::Get(k) => seq![3nat, k@.len()],
        RespCommandType::SetKv(k, v) => seq![3nat, k@.len(), v@.len()],
        RespCommandType::SetPx(k, v, t) => seq![
            3nat,
            k@.len(),
            v@.len(),
            2nat,
            spec_dec_nat(t as nat).len(),
        ],
        RespCommandType::Ping => seq![4nat],
        RespCommandType::Replconf(_) => seq![8nat, 6nat, 1nat],
    }
}

/// The number of bytes a command occupies on the wire, serialized as a
/// RESP array of bulk strings; the unknown command and `REPLCONF`
/// requests other than `GETACK` count zero.
pub open spec fn spec_cmd_offset(c: RespCommandType) -> nat {
    match c {
        RespCommandType::Error => 0,
        RespCommandType::Replconf(k) => if k@ == "getack"@ {
            array_wire_len(seq![8nat, 6nat, 1nat])
        } else {
            0
        },
        _ => array_wire_len(spec_cmd_lens(c)),
    }
}

/// The wire bytes of a sequence of bulk strings occupy exactly the sum
/// of their `bulk_wire_len`s.
pub proof fn lemma_encode_seq_bulks(parts: Seq<Seq<u8>>)
    ensures
        spec_encode_seq(parts.map_values(|p: Seq<u8>| FrameView::Bulk(p))).len() == sum_bulk_lens(
            parts.map_values(|p: Seq<u8>| p.len()),
        ),
    decreases parts.len(),
{
    let bulks = parts.map_values(|p: Seq<u8>| FrameView::Bulk(p));
    let lens = parts.map_values(|p: Seq<u8>| p.len());
    if parts.len() == 0 {
    } else {
        let tail = parts.subrange(1, parts.len() as int);
        lemma_encode_seq_bulks(tail);
        assert(bulks.subrange(1, bulks.len() as int) =~= tail.map_values(
            |p: Seq<u8>| FrameView::Bulk(p),
        ));
        assert(lens.subrange(1, lens.len() as int) =~= tail.map_values(|p: Seq<u8>| p.len()));
        assert(bulks[0] == FrameView::Bulk(parts[0]));
        assert(spec_encode(bulks[0]).len() == bulk_wire_len(parts[0].len()));
    }
}

/// `array_wire_len` is exactly the length of the wire encoding of the
/// corresponding RESP array of bulk strings.  Replication offsets are
/// therefore counted in true serialized bytes.
pub proof fn lemma_array_wire_len(parts: Seq<Seq<u8>>)
    ensures
        spec_encode(
            FrameView::Array(parts.map_values(|p: Seq<u8>| FrameView::Bulk(p))),
        ).len() == array_wire_len(parts.map_values(|p: Seq<u8>| p.len())),
{
    lemma_encode_seq_bulks(parts);
    assert(parts.map_values(|p: Seq<u8>| FrameView::Bulk(p)).len() == parts.len());
    assert(parts.map_values(|p: Seq<u8>| p.len()).len() == parts.len());
}

/// The decimal length of `n`, by writing the digits out.
pub fn u64_dec_len(n: u64) -> (r: usize)
    ensures
        r == spec_dec_nat(n as nat).len(),
{
    let mut digits: Vec<u8> = Vec::new();
    crate::resp::push_dec_u64(&mut digits, n);
    digits.len()
}

/// How many bytes `c` occupies on the wire (zero for the unknown
/// command), exactly as `spec_cmd_offset` counts them.
pub fn count_resp_command_type_offset(c: RespCommandType) -> (r: usize)
    requires
        spec_cmd_offset(c) <= usize::MAX,
    ensures
        r == spec_cmd_offset(c),
{
    match c {
        RespCommandType::Error => 0,
        RespCommandType::Get(k) => {
            let kb = crate::text::string_to_bytes(k.as_str());
            let kl = kb.len();
            let dl = u64_dec_len(kl as u64);
            proof {
                assert(kl == k@.len());
                lemma_cmd_lens_expand2(3nat, kl as nat);
                assert(spec_dec_nat(3).len() == 1);
                assert(spec_dec_nat(kl as nat).len() == dl);
            }
            let r0 = 18 + kl + dl;
            proof {
                assert(r0 == spec_cmd_offset(c));
            }
            r0
        },
        RespCommandType::SetKv(k, v) => {
            let kb = crate::text::string_to_bytes(k.as_str());
            let vb = crate::text::string_to_bytes(v.as_str());
            let kl = kb.len();
            let vl = vb.len();
            let dk = u64_dec_len(kl as u64);
            let dv = u64_dec_len(vl as u64);
            proof {
                assert(kl == k@.len() && vl == v@.len());
                lemma_cmd_lens_expand3(3nat, kl as nat, vl as nat);
                assert(spec_dec_nat(3).len() == 1);
            }
            let r0 = 23 + kl + vl + dk + dv;
            proof {
                assert(r0 == spec_cmd_offset(c));
            }
            r0
        },
        RespCommandType::SetPx(k, v, t) => {
            let kb = crate::text::string_to_bytes(k.as_str());
            let vb = crate::text::string_to_bytes(v.as_str());
            let kl = kb.len();
            let vl = vb.len();
            let dk = u64_dec_len(kl as u64);
            let dv = u64_dec_len(vl as u64);
            let dt = u64_dec_len(t);
            // the TTL bulk's own header digits: one for a short TTL,
            // more when the TTL value has ten or more digits
            let hdt = u64_dec_len(dt as u64);
            proof {
                assert(kl == k@.len() && vl == v@.len());
                lemma_cmd_lens_expand5(3nat, kl as nat, vl as nat, 2nat, (t as nat));
                assert(spec_dec_nat(3).len() == 1);
                assert(spec_dec_nat(2).len() == 1);
            }
            let r0 = 36 + kl + vl + dk + dv + dt + hdt;
            proof {
                assert(r0 == spec_cmd_offset(c));
            }
            r0
        },
        RespCommandType::Ping => {
            proof {
                lemma_cmd_lens_expand1(4nat);
                assert(spec_dec_nat(4).len() == 1);
            }
            let r0 = crate::replication::PING_LEN;
            proof {
                assert(r0 == spec_cmd_offset(c));
            }
            r0
        },
        RespCommandType::Replconf(k) => {
            let getack: String = "getack".to_owned();
            if k == getack {
                proof {
                    lemma_cmd_lens_expand3(8nat, 6nat, 1nat);
                    assert(spec_dec_nat(8).len() == 1);
                    assert(spec_dec_nat(6).len() == 1);
                    assert(spec_dec_nat(1).len() == 1);
                    assert(spec_dec_nat(3).len() == 1);
                }
                let r0 = crate::replication::REPL_GETACK_LEN;
                proof {
                    assert(r0 == spec_cmd_offset(c));
                }
                r0
            } else {
                proof {
                    assert(spec_cmd_offset(c) == 0);
                }
                0
            }
        },
    }
}

/// Expands the array length formula for a one-bulk command.
proof fn lemma_cmd_lens_expand1(a: nat)
    ensures
        array_wire_len(seq![a]) == 4 + bulk_wire_len(a),
{
    let s = seq![a];
    assert(s.len() == 1 && s[0] == a);
    assert(s.subrange(1, 1) =~= Seq::<nat>::empty());
    assert(sum_bulk_lens(Seq::<nat>::empty()) == 0);
    assert(sum_bulk_lens(s) == bulk_wire_len(s[0]) + sum_bulk_lens(s.subrange(1, 1)));
    assert(spec_dec_nat(1).len() == 1);
}

/// Expands the array length formula for a two-bulk command.
proof fn lemma_cmd_lens_expand2(a: nat, b: nat)
    ensures
        array_wire_len(seq![a, b]) == 4 + bulk_wire_len(a) + bulk_wire_len(b),
{
    let s = seq![a, b];
    assert(s.len() == 2 && s[0] == a && s[1] == b);
    assert(s.subrange(1, 2) =~= seq![b]);
    assert(seq![b].subrange(1, 1) =~= Seq::<nat>::empty());
    assert(sum_bulk_lens(Seq::<nat>::empty()) == 0);
    assert(sum_bulk_lens(seq![b]) == bulk_wire_len(b) + sum_bulk_lens(seq![b].subrange(1, 1)));
    assert(sum_bulk_lens(s) == bulk_wire_len(s[0]) + sum_bulk_lens(s.subrange(1, 2)));
    assert(spec_dec_nat(2).len() == 1);
}

/// Expands the array length formula for a three-bulk command.
proof fn lemma_cmd_lens_expand3(a: nat, b: nat, c: nat)
    ensures
        array_wire_len(seq![a, b, c]) == 4 + bulk_wire_len(a) + bulk_wire_len(b) + bulk_wire_len(
            c,
        ),
{
    let s = seq![a, b, c];
    assert(s.len() == 3 && s[0] == a && s[1] == b && s[2] == c);
    assert(s.subrange(1, 3) =~= seq![b, c]);
    assert(seq![b, c].subrange(1, 2) =~= seq![c]);
    assert(seq![c].subrange(1, 1) =~= Seq::<nat>::empty());
    assert(sum_bulk_lens(Seq::<nat>::empty()) == 0);
    assert(sum_bulk_lens(seq![c]) == bulk_wire_len(c) + sum_bulk_lens(seq![c].subrange(1, 1)));
    assert(sum_bulk_lens(seq![b, c]) == bulk_wire_len(b) + sum_bulk_lens(
        seq![b, c].subrange(1, 2),
    ));
    assert(sum_bulk_lens(s) == bulk_wire_len(s[0]) + sum_bulk_lens(s.subrange(1, 3)));
    assert(spec_dec_nat(3).len() == 1);
}

/// Expands the array length formula for a five-bulk command, the last
/// bulk holding the decimal digits of `t`.
proof fn lemma_cmd_lens_expand5(a: nat, b: nat, c: nat, d: nat, t: nat)
    ensures
        array_wire_len(seq![a, b, c, d, spec_dec_nat(t).len()]) == 4 + bulk_wire_len(a)
            + bulk_wire_len(b) + bulk_wire_len(c) + bulk_wire_len(d) + bulk_wire_len(
            spec_dec_nat(t).len(),
        ),
{
    let e = spec_dec_nat(t).len();
    let s = seq![a, b, c, d, e];
    assert(s.len() == 5 && s[0] == a && s[1] == b && s[2] == c && s[3] == d && s[4] == e);
    assert(s.subrange(1, 5) =~= seq![b, c, d, e]);
    assert(seq![b, c, d, e].subrange(1, 4) =~= seq![c, d, e]);
    assert(seq![c, d, e].subrange(1, 3) =~= seq![d, e]);
    assert(seq![d, e].subrange(1, 2) =~= seq![e]);
    assert(seq![e].subrange(1, 1) =~= Seq::<nat>::empty());
    assert(sum_bulk_lens(Seq::<nat>::empty()) == 0);
    assert(sum_bulk_lens(seq![e]) == bulk_wire_len(e) + sum_bulk_lens(seq![e].subrange(1, 1)));
    assert(sum_bulk_lens(seq![d, e]) == bulk_wire_len(d) + sum_bulk_lens(
        seq![d, e].subrange(1, 2),
    ));
    assert(sum_bulk_lens(seq![c, d, e]) == bulk_wire_len(c) + sum_bulk_lens(
        seq![c, d, e].subrange(1, 3),
    ));
    assert(sum_bulk_lens(seq![b, c, d, e]) == bulk_wire_len(b) + sum_bulk_lens(
        seq![b, c, d, e].subrange(1, 4),
    ));
    assert(sum_bulk_lens(s) == bulk_wire_len(s[0]) + sum_bulk_lens(s.subrange(1, 5)));
    assert(spec_dec_nat(5).len() == 1);
}

} // verus!

// ---------------------------------------------------------------------------
// Textual reply builders
// ---------------------------------------------------------------------------

verus! {

/// The bulk-string wire form of `s`, as text: `$<len>\r\n<s>\r\n`,
/// counting one byte per character.
pub fn string_to_bulk_string(s: String) -> (r: String)
    ensures
        r@ == chars_of_bytes(spec_encode(FrameView::Bulk(bytes_of_chars(s@)))),
{
    let b = crate::text::string_to_bytes(s.as_str());
    let frame = RespFrame::Bulk(b);
    let out = crate::resp::encode(&frame);
    crate::text::bytes_to_string(&out)
}

/// The frames of an array of bulk strings, one per word.
pub open spec fn bulk_frames_of(words: Seq<String>) -> Seq<FrameView> {
    words.map_values(|s: String| FrameView::Bulk(bytes_of_chars(s@)))
}

/// The wire form of a whole array of bulk strings, as text:
/// `*<n>\r\n` and one bulk string per element.
pub fn array_to_resp_array(vec: Vec<String>) -> (r: String)
    ensures
        r@ == chars_of_bytes(spec_encode(FrameView::Array(bulk_frames_of(vec@)))),
{
    let b = array_to_resp_array_bytes(&vec);
    crate::text::bytes_to_string(&b)
}

/// The wire form of a whole array of bulk strings, as bytes.
pub fn array_to_resp_array_bytes(vec: &Vec<String>) -> (r: Vec<u8>)
    ensures
        r@ == spec_encode(FrameView::Array(bulk_frames_of(vec@))),
{
    let mut frames: Vec<RespFrame> = Vec::new();
    let mut i: usize = 0;
    while i < vec.len()
        invariant
            i <= vec@.len(),
            frames@.len() == i,
            forall|j: int|
                0 <= j < i ==> crate::resp::frame_view(#[trigger] frames@[j]) == FrameView::Bulk(
                    bytes_of_chars(vec@[j]@),
                ),
        decreases vec@.len() - i,
    {
        frames.push(RespFrame::Bulk(crate::text::string_to_bytes(vec[i].as_str())));
        i = i + 1;
    }
    let ghost fvs = frames@;
    let arr = RespFrame::Array(frames);
    let out = crate::resp::encode(&arr);
    proof {
        crate::resp::lemma_views_of(fvs);
        assert(arr->Array_0@ == fvs);
        assert forall|j: int| 0 <= j < fvs.len() implies crate::resp::views_of(fvs)[j]
            == bulk_frames_of(vec@)[j] by {
            assert(crate::resp::views_of(fvs)[j] == crate::resp::frame_view(fvs[j]));
        }
        assert(crate::resp::views_of(fvs) =~= bulk_frames_of(vec@));
    }
    out
}

/// The header that precedes a raw RDB payload on a `PSYNC` reply:
/// `$<len>\r\n` with no trailing terminator, where `len` is the byte
/// count of the hex-decoded payload.  The text must be hexadecimal.
pub fn string_to_bulk_string_for_psync(s: String) -> (r: String)
    requires
        crate::text::valid_hex(s@),
    ensures
        r@ == chars_of_bytes(
            seq![36u8] + spec_dec_nat(crate::text::spec_hex_decode(s@).len()) + spec_crlf(),
        ),
{
    let decoded = match crate::text::hex_decode(s.as_str()) {
        Some(v) => v,
        None => Vec::new(),  // unreachable: the text is hexadecimal
    };
    let mut out: Vec<u8> = Vec::new();
    out.push(36u8);
    crate::resp::push_dec_u64(&mut out, decoded.len() as u64);
    crate::resp::push_crlf(&mut out);
    crate::text::bytes_to_string(&out)
}

} // verus!
