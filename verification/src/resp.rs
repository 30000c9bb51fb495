//! RESP (REdis Serialization Protocol) frames and their byte-level codec.
//!
//! A frame is one of the five RESP kinds: simple string, error, integer,
//! bulk string and array; bulk strings and arrays have a nil form.  The
//! encoder turns a frame into its wire bytes; the decoder is incremental:
//! fed an arbitrary prefix of a stream it either finds one complete frame,
//! asks for more bytes, or rejects the input.
//!
//! Contracts are stated over [`FrameView`], the mathematical mirror of
//! [`RespFrame`], through [`frame_view`]; `spec_encode` and `spec_decode`
//! define the wire format once, and the round-trip law
//! [`lemma_decode_encode`] ties them together.

use vstd::prelude::*;

verus! {

/// Carriage return, the first byte of the RESP line terminator.
pub const CR: u8 = 13;
/// Line feed, the second byte of the RESP line terminator.
pub const LF: u8 = 10;

/// One decoded RESP frame, owning its payload.
#[derive(Debug, PartialEq, Eq)]
pub enum RespFrame {
    /// `+...\r\n`
    Simple(Vec<u8>),
    /// `-...\r\n`
    Error(Vec<u8>),
    /// `:n\r\n`
    Integer(i64),
    /// `$len\r\n...\r\n`
    Bulk(Vec<u8>),
    /// The nil bulk string `$-1\r\n`.
    NullBulk,
    /// `*len\r\n` followed by the elements' frames.
    Array(Vec<RespFrame>),
    /// The nil array `*-1\r\n`.
    NullArray,
}

/// The mathematical shape of a frame: byte payloads as sequences,
/// integers unbounded.
pub enum FrameView {
    Simple(Seq<u8>),
    Error(Seq<u8>),
    Integer(int),
    Bulk(Seq<u8>),
    NullBulk,
    Array(Seq<FrameView>),
    NullArray,
}

/// The mathematical value of a frame.
pub open spec fn frame_view(f: RespFrame) -> FrameView
    decreases f, 0int,
{
    match f {
        RespFrame::Simple(s) => FrameView::Simple(s@),
        RespFrame::Error(s) => FrameView::Error(s@),
        RespFrame::Integer(i) => FrameView::Integer(i as int),
        RespFrame::Bulk(b) => FrameView::Bulk(b@),
        RespFrame::NullBulk => FrameView::NullBulk,
        RespFrame::Array(v) => FrameView::Array(views_of(v@)),
        RespFrame::NullArray => FrameView::NullArray,
    }
}

/// The views of the frames of `s`.
pub open spec fn views_of(s: Seq<RespFrame>) -> Seq<FrameView>
    decreases s, 1int,
{
    if s.len() == 0 {
        Seq::empty()
    } else {
        views_of(s.drop_last()).push(frame_view(s.last()))
    }
}

/// `views_of` maps `frame_view` over its argument, index by index.
pub proof fn lemma_views_of(s: Seq<RespFrame>)
    ensures
        views_of(s).len() == s.len(),
        forall|i: int| 0 <= i < s.len() ==> views_of(s)[i] == frame_view(#[trigger] s[i]),
    decreases s.len(),
{
    if s.len() > 0 {
        lemma_views_of(s.drop_last());
        assert(forall|i: int|
            0 <= i < s.len() - 1 ==> #[trigger] s[i] == s.drop_last()[i]);
    }
}

impl View for RespFrame {
    type V = FrameView;

    open spec fn view(&self) -> FrameView {
        frame_view(*self)
    }
}

/// The decimal digits of `n`, most significant first, as ASCII bytes.
pub open spec fn spec_dec_nat(n: nat) -> Seq<u8>
    decreases n,
{
    if n < 10 {
        seq![(48 + n) as u8]
    } else {
        spec_dec_nat(n / 10) + seq![(48 + n % 10) as u8]
    }
}

/// The decimal form of a signed integer: a minus sign for negatives,
/// then the digits of the absolute value.
pub open spec fn spec_dec_int(i: int) -> Seq<u8> {
    if i < 0 {
        seq![45u8] + spec_dec_nat((-i) as nat)
    } else {
        spec_dec_nat(i as nat)
    }
}

/// The two-byte line terminator `\r\n`.
pub open spec fn spec_crlf() -> Seq<u8> {
    seq![CR, LF]
}

/// The wire bytes of one frame.
pub open spec fn spec_encode(f: FrameView) -> Seq<u8>
    decreases f,
{
    match f {
        FrameView::Simple(s) => seq![43u8] + s + spec_crlf(),
        FrameView::Error(s) => seq![45u8] + s + spec_crlf(),
        FrameView::Integer(i) => seq![58u8] + spec_dec_int(i) + spec_crlf(),
        FrameView::Bulk(b) => seq![36u8] + spec_dec_nat(b.len()) + spec_crlf() + b + spec_crlf(),
        FrameView::NullBulk => seq![36u8, 45u8, 49u8] + spec_crlf(),
        FrameView::Array(v) => seq![42u8] + spec_dec_nat(v.len()) + spec_crlf() + spec_encode_seq(
            v,
        ),
        FrameView::NullArray => seq![42u8, 45u8, 49u8] + spec_crlf(),
    }
}

/// The concatenated wire bytes of a sequence of frames.
pub open spec fn spec_encode_seq(s: Seq<FrameView>) -> Seq<u8>
    decreases s,
{
    if s.len() == 0 {
        Seq::empty()
    } else {
        spec_encode(s[0]) + spec_encode_seq(s.subrange(1, s.len() as int))
    }
}

/// A frame the codec can reproduce: simple strings and errors carry no
/// line-terminator bytes, integers fit in the signed 64-bit range, and
/// every element of an array is itself such a frame.
pub open spec fn wf_frame(f: FrameView) -> bool
    decreases f,
{
    match f {
        FrameView::Simple(s) => forall|i: int| 0 <= i < s.len() ==> s[i] != CR && s[i] != LF,
        FrameView::Error(s) => forall|i: int| 0 <= i < s.len() ==> s[i] != CR && s[i] != LF,
        FrameView::Integer(i) => -0x8000_0000_0000_0000 <= i <= 0x7fff_ffff_ffff_ffff,
        FrameView::Bulk(_) => true,
        FrameView::NullBulk => true,
        FrameView::Array(v) => forall|i: int| 0 <= i < v.len() ==> wf_frame(#[trigger] v[i]),
        FrameView::NullArray => true,
    }
}

// ---------------------------------------------------------------------------
// Encoding
// ---------------------------------------------------------------------------

/// Appends the decimal digits of `n` to `out`.
pub fn push_dec_u64(out: &mut Vec<u8>, n: u64)
    ensures
        final(out)@ == old(out)@ + spec_dec_nat(n as nat),
    decreases n,
{
    if n < 10 {
        out.push((48 + n as u8) as u8);
    } else {
        push_dec_u64(out, n / 10);
        out.push(48 + (n % 10) as u8);
    }
}

/// Appends `\r\n` to `out`.
pub fn push_crlf(out: &mut Vec<u8>)
    ensures
        final(out)@ == old(out)@ + spec_crlf(),
{
    out.push(CR);
    out.push(LF);
}

/// Appends the decimal form of a signed integer to `out`.
pub fn push_dec_i64(out: &mut Vec<u8>, i: i64)
    ensures
        final(out)@ == old(out)@ + spec_dec_int(i as int),
{
    if i < 0 {
        out.push(45u8);
        // i64::MIN has no negation in i64; widen first.
        let wide: i128 = i as i128;
        let neg: i128 = -wide;
        assert(0 < neg <= 0x8000_0000_0000_0000i128);
        let m: u64 = neg as u64;
        push_dec_u64(out, m);
    } else {
        push_dec_u64(out, i as u64);
    }
}

/// Appends all of `b` to `out`.
pub fn extend_bytes(out: &mut Vec<u8>, b: &Vec<u8>)
    ensures
        final(out)@ == old(out)@ + b@,
{
    let mut k: usize = 0;
    while k < b.len()
        invariant
            k <= b.len(),
            out@ == old(out)@ + b@.take(k as int),
        decreases b.len() - k,
    {
        out.push(b[k]);
        proof {
            assert(old(out)@ + b@.take(k + 1 as int) =~= (old(out)@ + b@.take(k as int)).push(
                b@[k as int],
            ));
        }
        k = k + 1;
    }
    proof {
        assert(b@.take(b@.len() as int) =~= b@);
    }
}

/// Appends the wire bytes of `f` to `out`.
pub fn encode_into(out: &mut Vec<u8>, f: &RespFrame)
    ensures
        final(out)@ == old(out)@ + spec_encode(f@),
    decreases *f, 0int,
{
    match f {
        RespFrame::Simple(s) => {
            out.push(43u8);
            extend_bytes(out, s);
            push_crlf(out);
        }
        RespFrame::Error(s) => {
            out.push(45u8);
            extend_bytes(out, s);
            push_crlf(out);
        }
        RespFrame::Integer(i) => {
            out.push(58u8);
            push_dec_i64(out, *i);
            push_crlf(out);
        }
        RespFrame::Bulk(b) => {
            out.push(36u8);
            push_dec_u64(out, b.len() as u64);
            push_crlf(out);
            extend_bytes(out, b);
            push_crlf(out);
        }
        RespFrame::NullBulk => {
            out.push(36u8);
            out.push(45u8);
            out.push(49u8);
            push_crlf(out);
        }
        RespFrame::Array(v) => {
            out.push(42u8);
            push_dec_u64(out, v.len() as u64);
            push_crlf(out);
            proof {
                assert(decreases_to!(*f => (*f)->Array_0));
                assert(decreases_to!((*f)->Array_0 => v@));
                lemma_views_of(v@);
            }
            encode_items(out, v, 0);
            proof {
                lemma_views_of(v@);
                assert(views_of(v@).subrange(0, v@.len() as int) =~= views_of(v@));
            }
        }
        RespFrame::NullArray => {
            out.push(42u8);
            out.push(45u8);
            out.push(49u8);
            push_crlf(out);
        }
    }
}

/// Appends the wire bytes of the elements `v[k..]` to `out`.
fn encode_items(out: &mut Vec<u8>, v: &Vec<RespFrame>, k: usize)
    requires
        k <= v@.len(),
    ensures
        final(out)@ == old(out)@ + spec_encode_seq(
            views_of(v@).subrange(k as int, v@.len() as int),
        ),
    decreases v@, 1int, v@.len() - k,
{
    proof {
        lemma_views_of(v@);
    }
    let ghost tail = views_of(v@).subrange(k as int, v@.len() as int);
    if k < v.len() {
        proof {
            assert(decreases_to!(v@ => v@[k as int]));
        }
        encode_into(out, &v[k]);
        encode_items(out, v, k + 1);
        proof {
            assert(tail[0] == frame_view(v@[k as int]));
            assert(tail.subrange(1, tail.len() as int) =~= views_of(v@).subrange(
                k + 1 as int,
                v@.len() as int,
            ));
        }
    } else {
        proof {
            assert(tail.len() == 0);
        }
    }
}

/// The wire bytes of one frame.
pub fn encode(f: &RespFrame) -> (r: Vec<u8>)
    ensures
        r@ == spec_encode(f@),
{
    let mut out: Vec<u8> = Vec::new();
    encode_into(&mut out, f);
    out
}

} // verus!

// ---------------------------------------------------------------------------
// Decoding: specification level
// ---------------------------------------------------------------------------

verus! {

/// ASCII decimal digit.
pub open spec fn is_digit(b: u8) -> bool {
    48 <= b <= 57
}

/// Every byte of `s` is a decimal digit.
pub open spec fn all_digits(s: Seq<u8>) -> bool {
    forall|i: int| 0 <= i < s.len() ==> is_digit(#[trigger] s[i])
}

/// The value of a digit string, most significant digit first.
pub open spec fn dec_val(s: Seq<u8>) -> nat
    decreases s.len(),
{
    if s.len() == 0 {
        0
    } else {
        dec_val(s.take(s.len() - 1)) * 10 + (if s.last() >= 48 {
            (s.last() - 48) as nat
        } else {
            0
        })
    }
}

/// The least position `j >= i` where `\r\n` starts, if any.
pub open spec fn find_crlf_from(b: Seq<u8>, i: int) -> Option<int>
    decreases b.len() - i,
{
    if i < 0 || i + 2 > b.len() {
        None
    } else if b[i] == CR && b[i + 1] == LF {
        Some(i)
    } else {
        find_crlf_from(b, i + 1)
    }
}

/// What one step of the incremental decoder yields on some input
/// prefix: a complete frame and the byte count it occupied, a request
/// for more input, or a protocol error.
pub enum FrameStep {
    Found { frame: FrameView, used: int },
    More,
    Bad,
}

/// The result of decoding a fixed number of consecutive frames.
pub enum ItemsStep {
    Found { items: Seq<FrameView>, used: int },
    More,
    Bad,
}

/// The header line of a length-prefixed frame (`$` or `*`): either a
/// negative length (nil), or a byte/element count.
pub enum HeaderLine {
    Nil,
    Count(nat),
    BadHeader,
}

/// Classifies the text between a `$` or `*` marker and its `\r\n`.
pub open spec fn spec_header(line: Seq<u8>) -> HeaderLine {
    if line.len() >= 2 && line[0] == 45 && all_digits(line.subrange(1, line.len() as int)) {
        HeaderLine::Nil
    } else if line.len() >= 1 && all_digits(line) {
        HeaderLine::Count(dec_val(line))
    } else {
        HeaderLine::BadHeader
    }
}

/// Decodes the text of an integer frame; values must fit in `i64`.
pub open spec fn spec_decode_integer(line: Seq<u8>, after: int) -> FrameStep {
    if line.len() >= 2 && line[0] == 45 {
        let digits = line.subrange(1, line.len() as int);
        if all_digits(digits) && dec_val(digits) <= 0x8000_0000_0000_0000 {
            FrameStep::Found { frame: FrameView::Integer(-(dec_val(digits) as int)), used: after }
        } else {
            FrameStep::Bad
        }
    } else if line.len() >= 1 && all_digits(line) && dec_val(line) <= 0x7fff_ffff_ffff_ffff {
        FrameStep::Found { frame: FrameView::Integer(dec_val(line) as int), used: after }
    } else {
        FrameStep::Bad
    }
}

/// Decodes one frame from the front of `b`: the marker byte, its header
/// line, and the payload that the header calls for.  Absence of a full
/// line or of a full payload yields `More`, never an error.
pub open spec fn spec_decode(b: Seq<u8>) -> FrameStep
    decreases b.len(), 0int, 0int,
{
    if b.len() == 0 {
        FrameStep::More
    } else {
        let marker = b[0];
        if marker != 43 && marker != 45 && marker != 58 && marker != 36 && marker != 42 {
            FrameStep::Bad
        } else {
            match find_crlf_from(b, 1) {
                None => FrameStep::More,
                Some(j) => {
                    let line = b.subrange(1, j);
                    let after = j + 2;
                    if marker == 43 {
                        FrameStep::Found { frame: FrameView::Simple(line), used: after }
                    } else if marker == 45 {
                        FrameStep::Found { frame: FrameView::Error(line), used: after }
                    } else if marker == 58 {
                        spec_decode_integer(line, after)
                    } else if marker == 36 {
                        match spec_header(line) {
                            HeaderLine::Nil => FrameStep::Found {
                                frame: FrameView::NullBulk,
                                used: after,
                            },
                            HeaderLine::Count(n) => if b.len() < after + n + 2 {
                                FrameStep::More
                            } else if b[after + n] == CR && b[after + n + 1] == LF {
                                FrameStep::Found {
                                    frame: FrameView::Bulk(b.subrange(after, after + n)),
                                    used: after + n + 2,
                                }
                            } else {
                                FrameStep::Bad
                            },
                            HeaderLine::BadHeader => FrameStep::Bad,
                        }
                    } else {
                        match spec_header(line) {
                            HeaderLine::Nil => FrameStep::Found {
                                frame: FrameView::NullArray,
                                used: after,
                            },
                            HeaderLine::Count(n) => if 1 <= after <= b.len() {
                                match spec_decode_items(b.subrange(after, b.len() as int), n) {
                                    ItemsStep::Found { items, used } => FrameStep::Found {
                                        frame: FrameView::Array(items),
                                        used: after + used,
                                    },
                                    ItemsStep::More => FrameStep::More,
                                    ItemsStep::Bad => FrameStep::Bad,
                                }
                            } else {
                                FrameStep::Bad
                            },
                            HeaderLine::BadHeader => FrameStep::Bad,
                        }
                    }
                },
            }
        }
    }
}

/// Decodes `n` consecutive frames from the front of `b`.
pub open spec fn spec_decode_items(b: Seq<u8>, n: nat) -> ItemsStep
    decreases b.len(), 1int, n,
{
    if n == 0 {
        ItemsStep::Found { items: Seq::empty(), used: 0 }
    } else {
        match spec_decode(b) {
            FrameStep::Found { frame, used } => if 1 <= used <= b.len() {
                match spec_decode_items(b.subrange(used, b.len() as int), (n - 1) as nat) {
                    ItemsStep::Found { items, used: more } => ItemsStep::Found {
                        items: seq![frame] + items,
                        used: used + more,
                    },
                    ItemsStep::More => ItemsStep::More,
                    ItemsStep::Bad => ItemsStep::Bad,
                }
            } else {
                ItemsStep::Bad
            },
            FrameStep::More => ItemsStep::More,
            FrameStep::Bad => ItemsStep::Bad,
        }
    }
}

} // verus!

// ---------------------------------------------------------------------------
// Decoding: executable level
// ---------------------------------------------------------------------------

verus! {

/// What the executable decoder returned for one frame: the frame and the
/// position just past it, a request for more bytes, or a protocol error.
#[derive(Debug, PartialEq, Eq)]
pub enum Decoded {
    Found(RespFrame, usize),
    More,
    Bad,
}

/// The executable result agrees with `spec_decode` on the bytes from
/// `from` on.
pub open spec fn decoded_matches(r: Decoded, b: Seq<u8>, from: int) -> bool {
    match r {
        Decoded::Found(f, end) => from < end <= b.len() && spec_decode(
            b.subrange(from, b.len() as int),
        ) == (FrameStep::Found { frame: frame_view(f), used: end - from }),
        Decoded::More => spec_decode(b.subrange(from, b.len() as int)) is More,
        Decoded::Bad => spec_decode(b.subrange(from, b.len() as int)) is Bad,
    }
}

/// If a line terminator starts at `j` and none starts before it, the
/// search from `i` finds `j`.
pub proof fn lemma_find_crlf_some(b: Seq<u8>, i: int, j: int)
    requires
        0 <= i <= j,
        j + 2 <= b.len(),
        b[j] == CR,
        b[j + 1] == LF,
        forall|k: int| i <= k < j ==> !(#[trigger] b[k] == CR && b[k + 1] == LF),
    ensures
        find_crlf_from(b, i) == Some(j),
    decreases j - i,
{
    if i < j {
        lemma_find_crlf_some(b, i + 1, j);
    }
}

/// If no line terminator starts at or after `i`, the search finds none.
pub proof fn lemma_find_crlf_none(b: Seq<u8>, i: int)
    requires
        0 <= i,
        forall|k: int| i <= k && k + 2 <= b.len() ==> !(#[trigger] b[k] == CR && b[k + 1] == LF),
    ensures
        find_crlf_from(b, i) is None,
    decreases b.len() - i,
{
    if i + 2 <= b.len() {
        lemma_find_crlf_none(b, i + 1);
    }
}

/// The position of the first `\r\n` at or after `start`, scanning the
/// whole vector.
fn find_crlf(input: &Vec<u8>, start: usize) -> (r: Option<usize>)
    ensures
        match r {
            Some(j) => start <= j && j + 2 <= input@.len() && input@[j as int] == CR && input@[j
                + 1] == LF && (forall|k: int|
                start <= k < j ==> !(#[trigger] input@[k] == CR && input@[k + 1] == LF)),
            None => forall|k: int|
                start <= k && k + 2 <= input@.len() ==> !(#[trigger] input@[k] == CR && input@[k
                + 1] == LF),
        },
{
    let len = input.len();
    if len < 2 {
        return None;
    }
    let mut j = start;
    while j <= len - 2
        invariant
            start <= j,
            2 <= len,
            len == input@.len(),
            forall|k: int| start <= k < j ==> !(#[trigger] input@[k] == CR && input@[k + 1] == LF),
        decreases len - j,
    {
        if input[j] == CR && input[j + 1] == LF {
            return Some(j);
        }
        j = j + 1;
    }
    None
}

/// Copies `input[lo..hi]` into a fresh vector.
pub fn copy_range(input: &Vec<u8>, lo: usize, hi: usize) -> (r: Vec<u8>)
    requires
        lo <= hi <= input@.len(),
    ensures
        r@ == input@.subrange(lo as int, hi as int),
{
    let mut out: Vec<u8> = Vec::new();
    let mut k = lo;
    while k < hi
        invariant
            lo <= k <= hi <= input@.len(),
            out@ == input@.subrange(lo as int, k as int),
        decreases hi - k,
    {
        out.push(input[k]);
        proof {
            assert(input@.subrange(lo as int, k + 1 as int) =~= input@.subrange(
                lo as int,
                k as int,
            ).push(input@[k as int]));
        }
        k = k + 1;
    }
    out
}

/// Whether every byte of `input[lo..hi]` is a decimal digit.
pub fn check_all_digits(input: &Vec<u8>, lo: usize, hi: usize) -> (r: bool)
    requires
        lo <= hi <= input@.len(),
    ensures
        r == all_digits(input@.subrange(lo as int, hi as int)),
{
    let ghost sub = input@.subrange(lo as int, hi as int);
    let mut k = lo;
    while k < hi
        invariant
            lo <= k <= hi <= input@.len(),
            sub == input@.subrange(lo as int, hi as int),
            forall|i: int| 0 <= i < k - lo ==> is_digit(#[trigger] sub[i]),
        decreases hi - k,
    {
        let c = input[k];
        if c < 48 || c > 57 {
            proof {
                assert(sub[k - lo] == input@[k as int]);
            }
            return false;
        }
        proof {
            assert(sub[k - lo] == input@[k as int]);
        }
        k = k + 1;
    }
    true
}

/// Appending one digit multiplies the value by ten and adds it.
proof fn lemma_dec_val_step(s: Seq<u8>, i: int)
    requires
        0 <= i < s.len(),
    ensures
        dec_val(s.take(i + 1)) == dec_val(s.take(i)) * 10 + (if s[i] >= 48 {
            (s[i] - 48) as nat
        } else {
            0
        }),
{
    let t = s.take(i + 1);
    assert(t.take(i) =~= s.take(i));
    assert(t.last() == s[i]);
}

/// The value of the digit string `input[lo..hi]`, unless it exceeds `u64`.
pub fn parse_val(input: &Vec<u8>, lo: usize, hi: usize) -> (r: Option<u64>)
    requires
        lo <= hi <= input@.len(),
        all_digits(input@.subrange(lo as int, hi as int)),
    ensures
        match r {
            Some(v) => v as nat == dec_val(input@.subrange(lo as int, hi as int)),
            None => dec_val(input@.subrange(lo as int, hi as int)) > u64::MAX,
        },
{
    let ghost sub = input@.subrange(lo as int, hi as int);
    let mut acc: u64 = 0;
    let mut over: bool = false;
    let mut k = lo;
    proof {
        assert(sub.take(0) =~= Seq::<u8>::empty());
    }
    while k < hi
        invariant
            lo <= k <= hi <= input@.len(),
            sub == input@.subrange(lo as int, hi as int),
            all_digits(sub),
            !over ==> acc as nat == dec_val(sub.take(k - lo)),
            over ==> dec_val(sub.take(k - lo)) > u64::MAX,
        decreases hi - k,
    {
        let c = input[k];
        proof {
            assert(sub[k - lo] == input@[k as int]);
            assert(is_digit(sub[k - lo]));
            lemma_dec_val_step(sub, k - lo);
        }
        let d = (c - 48) as u64;
        if over {
            // once past the range, later digits keep it past the range
        } else {
            let wide: u128 = acc as u128 * 10 + d as u128;
            if wide > u64::MAX as u128 {
                over = true;
            } else {
                acc = wide as u64;
            }
        }
        k = k + 1;
    }
    proof {
        assert(sub.take(hi - lo) =~= sub);
    }
    if over {
        None
    } else {
        Some(acc)
    }
}

/// Relates an executable header parse to `spec_header`: the line is
/// `input[lo..hi]`, already known to sit between a marker and `\r\n`.
#[derive(PartialEq, Eq)]
enum Header {
    NilHeader,
    /// The count, or `None` when it exceeds `u64`.
    CountHeader(Option<u64>),
    BadLine,
}

/// Parses a `$`/`*` header line.
fn parse_header(input: &Vec<u8>, lo: usize, hi: usize) -> (r: Header)
    requires
        lo <= hi <= input@.len(),
    ensures
        ({
            let line = input@.subrange(lo as int, hi as int);
            match r {
                Header::NilHeader => spec_header(line) is Nil,
                Header::CountHeader(ov) => spec_header(line) matches HeaderLine::Count(n) && (match ov {
                    Some(v) => v as nat == n,
                    None => n > u64::MAX,
                }),
                Header::BadLine => spec_header(line) is BadHeader,
            }
        }),
{
    let ghost line = input@.subrange(lo as int, hi as int);
    if hi - lo >= 2 && input[lo] == 45 {
        if check_all_digits(input, lo + 1, hi) {
            proof {
                assert(line.subrange(1, line.len() as int) =~= input@.subrange(
                    lo + 1 as int,
                    hi as int,
                ));
                assert(line[0] == input@[lo as int]);
            }
            Header::NilHeader
        } else {
            proof {
                assert(line.subrange(1, line.len() as int) =~= input@.subrange(
                    lo + 1 as int,
                    hi as int,
                ));
                assert(line[0] == input@[lo as int]);
                assert(!all_digits(line)) by {
                    assert(line[0] == 45);
                }
            }
            Header::BadLine
        }
    } else if hi - lo >= 1 && check_all_digits(input, lo, hi) {
        let v = parse_val(input, lo, hi);
        proof {
            if line.len() >= 2 && line[0] == 45 {
                assert(is_digit(line[0]));
                assert(false);
            }
        }
        Header::CountHeader(v)
    } else {
        proof {
            if hi - lo >= 2 && line[0] == 45 {
                assert(line[0] == input@[lo as int]);
                assert(false);
            }
            if line.len() >= 1 && all_digits(line) {
                assert(line[0] == input@[lo as int]);
                if line.len() >= 2 && line[0] == 45 {
                    assert(false);
                }
            }
        }
        Header::BadLine
    }
}

} // verus!

// ---------------------------------------------------------------------------
// Decoding: the decoder itself
// ---------------------------------------------------------------------------

verus! {

/// What the executable decoder returned for a run of frames.
enum ItemsDecoded {
    FoundItems(Vec<RespFrame>, usize),
    MoreItems,
    BadItems,
}

/// Counts beyond the bytes at hand all decode alike: the run stalls or
/// fails before the count matters.
proof fn lemma_items_saturate(b: Seq<u8>, n1: nat, n2: nat)
    requires
        n1 > b.len(),
        n2 > b.len(),
    ensures
        spec_decode_items(b, n1) == spec_decode_items(b, n2),
    decreases b.len(),
{
    match spec_decode(b) {
        FrameStep::Found { frame, used } => {
            if 1 <= used <= b.len() {
                let rest = b.subrange(used, b.len() as int);
                lemma_items_saturate(rest, (n1 - 1) as nat, (n2 - 1) as nat);
            }
        },
        FrameStep::More => {},
        FrameStep::Bad => {},
    }
}

/// Decodes one frame from `input[from..]`.
///
/// Feeding the decoder any prefix of a byte stream is safe: a frame cut
/// short yields `More` and no input is consumed until a whole frame is
/// present.  The result agrees exactly with `spec_decode`.
pub fn decode_frame(input: &Vec<u8>, from: usize) -> (r: Decoded)
    requires
        from <= input@.len(),
    ensures
        decoded_matches(r, input@, from as int),
    decreases input@.len() - from, 0int, 0int,
{
    let len = input.len();
    let ghost tail = input@.subrange(from as int, input@.len() as int);
    if from >= len {
        return Decoded::More;
    }
    let marker = input[from];
    proof {
        assert(tail[0] == input@[from as int]);
    }
    if marker != 43 && marker != 45 && marker != 58 && marker != 36 && marker != 42 {
        return Decoded::Bad;
    }
    match find_crlf(input, from + 1) {
        None => {
            proof {
                assert forall|k: int| 1 <= k && k + 2 <= tail.len() implies !(#[trigger] tail[k]
                    == CR && tail[k + 1] == LF) by {
                    assert(tail[k] == input@[from + k]);
                    assert(tail[k + 1] == input@[from + k + 1]);
                }
                lemma_find_crlf_none(tail, 1);
            }
            Decoded::More
        },
        Some(j_abs) => {
            let ghost j = j_abs - from;
            proof {
                assert(tail[j] == input@[j_abs as int]);
                assert(tail[j + 1] == input@[j_abs + 1]);
                assert forall|k: int| 1 <= k < j implies !(#[trigger] tail[k] == CR && tail[k + 1]
                    == LF) by {
                    assert(tail[k] == input@[from + k]);
                    assert(tail[k + 1] == input@[from + k + 1]);
                }
                lemma_find_crlf_some(tail, 1, j);
                assert(tail.subrange(1, j) =~= input@.subrange(from + 1 as int, j_abs as int));
            }
            let after = j_abs + 2;
            let ghost line = tail.subrange(1, j);
            if marker == 43 {
                let payload = copy_range(input, from + 1, j_abs);
                Decoded::Found(RespFrame::Simple(payload), after)
            } else if marker == 45 {
                let payload = copy_range(input, from + 1, j_abs);
                Decoded::Found(RespFrame::Error(payload), after)
            } else if marker == 58 {
                decode_integer_line(input, from + 1, j_abs)
            } else if marker == 36 {
                match parse_header(input, from + 1, j_abs) {
                    Header::NilHeader => Decoded::Found(RespFrame::NullBulk, after),
                    Header::CountHeader(ov) => {
                        match ov {
                            None => {
                                // the announced length exceeds u64: more
                                // bytes than this input can hold
                                Decoded::More
                            },
                            Some(n) => {
                                if n > (len - after) as u64 || (len - after) as u64 - n < 2 {
                                    proof {
                                        assert(tail.len() < j + 2 + dec_val(line) + 2);
                                    }
                                    Decoded::More
                                } else {
                                    let n_us = n as usize;
                                    proof {
                                        assert(after + n_us + 2 <= len);
                                        assert(tail[j + 2 + dec_val(line)] == input@[after + n_us]);
                                        assert(tail[j + 2 + dec_val(line) + 1] == input@[after
                                            + n_us + 1]);
                                    }
                                    if input[after + n_us] == CR && input[after + n_us + 1] == LF {
                                        let payload = copy_range(input, after, after + n_us);
                                        proof {
                                            assert(tail.subrange(j + 2, j + 2 + dec_val(line))
                                                =~= input@.subrange(
                                                after as int,
                                                after + n_us as int,
                                            ));
                                        }
                                        Decoded::Found(RespFrame::Bulk(payload), after + n_us + 2)
                                    } else {
                                        Decoded::Bad
                                    }
                                }
                            },
                        }
                    },
                    Header::BadLine => Decoded::Bad,
                }
            } else {
                match parse_header(input, from + 1, j_abs) {
                    Header::NilHeader => Decoded::Found(RespFrame::NullArray, after),
                    Header::CountHeader(ov) => {
                        let remaining = len - after;
                        let ghost n_spec: nat = (match spec_header(line) {
                            HeaderLine::Count(n) => n,
                            _ => 0,
                        });
                        let ghost items_in = tail.subrange(j + 2, tail.len() as int);
                        proof {
                            assert(items_in =~= input@.subrange(after as int, len as int));
                            assert(items_in.len() == remaining);
                        }
                        let n_run: usize = match ov {
                            Some(n) => if n <= remaining as u64 {
                                n as usize
                            } else {
                                proof {
                                    lemma_items_saturate(items_in, n_spec, (remaining + 1) as nat);
                                }
                                remaining + 1
                            },
                            None => {
                                proof {
                                    lemma_items_saturate(items_in, n_spec, (remaining + 1) as nat);
                                }
                                remaining + 1
                            },
                        };
                        match decode_items(input, after, n_run) {
                            ItemsDecoded::FoundItems(items, end) => {
                                proof {
                                    lemma_views_of(items@);
                                }
                                Decoded::Found(RespFrame::Array(items), end)
                            },
                            ItemsDecoded::MoreItems => Decoded::More,
                            ItemsDecoded::BadItems => Decoded::Bad,
                        }
                    },
                    Header::BadLine => Decoded::Bad,
                }
            }
        },
    }
}

/// Decodes the line of an integer frame, `input[lo..hi]`, where the
/// terminator sits at `hi`.
fn decode_integer_line(input: &Vec<u8>, lo: usize, hi: usize) -> (r: Decoded)
    requires
        1 <= lo <= hi,
        hi + 2 <= input@.len(),
        spec_decode(input@.subrange(lo - 1, input@.len() as int)) == spec_decode_integer(
            input@.subrange(lo as int, hi as int),
            hi + 2 - (lo - 1),
        ),
    ensures
        decoded_matches(r, input@, lo - 1),
{
    let len = input.len();
    let ghost tail = input@.subrange(lo - 1, input@.len() as int);
    let ghost line = input@.subrange(lo as int, hi as int);
    let after = hi + 2;
    let ghost used = after - (lo - 1);
    proof {
        assert(spec_decode(tail) == spec_decode_integer(line, used));
    }
    if hi - lo >= 2 && input[lo] == 45 {
        proof {
            assert(line[0] == input@[lo as int]);
            assert(line.subrange(1, line.len() as int) =~= input@.subrange(lo + 1 as int, hi as int));
        }
        if check_all_digits(input, lo + 1, hi) {
            match parse_val(input, lo + 1, hi) {
                Some(v) if v <= 0x8000_0000_0000_0000u64 => {
                    let value: i64 = if v == 0x8000_0000_0000_0000u64 {
                        i64::MIN
                    } else {
                        -(v as i64)
                    };
                    Decoded::Found(RespFrame::Integer(value), after)
                },
                _ => Decoded::Bad,
            }
        } else {
            Decoded::Bad
        }
    } else if hi - lo >= 1 && check_all_digits(input, lo, hi) {
        proof {
            if line.len() >= 2 && line[0] == 45 {
                assert(is_digit(line[0]));
                assert(false);
            }
        }
        match parse_val(input, lo, hi) {
            Some(v) if v <= 0x7fff_ffff_ffff_ffffu64 => {
                Decoded::Found(RespFrame::Integer(v as i64), after)
            },
            _ => Decoded::Bad,
        }
    } else {
        proof {
            if line.len() >= 2 && line[0] == 45 {
                assert(line[0] == input@[lo as int]);
                assert(false);
            }
            if line.len() >= 1 && all_digits(line) {
                assert(forall|i: int|
                    0 <= i < line.len() ==> line[i] == input@[lo + i]);
                assert(false);
            }
        }
        Decoded::Bad
    }
}

/// Decodes `n` frames starting at `from`, returning them in order.
fn decode_items(input: &Vec<u8>, from: usize, n: usize) -> (r: ItemsDecoded)
    requires
        from <= input@.len(),
    ensures
        ({
            let b = input@.subrange(from as int, input@.len() as int);
            match r {
                ItemsDecoded::FoundItems(items, end) => from <= end <= input@.len()
                    && spec_decode_items(b, n as nat) == (ItemsStep::Found {
                    items: views_of(items@),
                    used: end - from,
                }),
                ItemsDecoded::MoreItems => spec_decode_items(b, n as nat) is More,
                ItemsDecoded::BadItems => spec_decode_items(b, n as nat) is Bad,
            }
        }),
    decreases input@.len() - from, 1int, n,
{
    let ghost b = input@.subrange(from as int, input@.len() as int);
    if n == 0 {
        proof {
            lemma_views_of(Seq::<RespFrame>::empty());
            assert(views_of(Seq::<RespFrame>::empty()) =~= Seq::<FrameView>::empty());
        }
        return ItemsDecoded::FoundItems(Vec::new(), from);
    }
    match decode_frame(input, from) {
        Decoded::Found(f, end) => {
            let ghost rest = input@.subrange(end as int, input@.len() as int);
            proof {
                assert(b.subrange(end - from, b.len() as int) =~= rest);
            }
            match decode_items(input, end, n - 1) {
                ItemsDecoded::FoundItems(mut items, end2) => {
                    let ghost before = items@;
                    items.insert(0, f);
                    proof {
                        lemma_views_of(items@);
                        lemma_views_of(before);
                        assert(items@ =~= seq![f] + before);
                        assert forall|i: int| 0 <= i < items@.len() implies views_of(items@)[i]
                            == (seq![frame_view(f)] + views_of(before))[i] by {
                            assert(items@[0] == f);
                            if i > 0 {
                                assert(items@[i] == before[i - 1]);
                            }
                        }
                        assert(views_of(items@) =~= seq![frame_view(f)] + views_of(before));
                    }
                    ItemsDecoded::FoundItems(items, end2)
                },
                ItemsDecoded::MoreItems => ItemsDecoded::MoreItems,
                ItemsDecoded::BadItems => ItemsDecoded::BadItems,
            }
        },
        Decoded::More => ItemsDecoded::MoreItems,
        Decoded::Bad => ItemsDecoded::BadItems,
    }
}

} // verus!

// ---------------------------------------------------------------------------
// The round-trip law: decoding an encoded frame gives the frame back
// ---------------------------------------------------------------------------

verus! {

/// Decimal digit strings are nonempty, all digits, and never begin with
/// a minus sign.
pub proof fn lemma_dec_nat_digits(n: nat)
    ensures
        spec_dec_nat(n).len() >= 1,
        all_digits(spec_dec_nat(n)),
        spec_dec_nat(n)[0] != 45,
    decreases n,
{
    if n >= 10 {
        lemma_dec_nat_digits(n / 10);
        let s = spec_dec_nat(n);
        let h = spec_dec_nat(n / 10);
        assert forall|i: int| 0 <= i < s.len() implies is_digit(#[trigger] s[i]) by {
            if i < h.len() {
                assert(s[i] == h[i]);
            }
        }
    }
}

/// Reading back the digits of `n` yields `n`.
#[verifier::spinoff_prover]
#[verifier::rlimit(50)]
pub proof fn lemma_dec_nat_val(n: nat)
    ensures
        dec_val(spec_dec_nat(n)) == n,
    decreases n,
{
    let s = spec_dec_nat(n);
    if n < 10 {
        assert(s =~= seq![(48 + n) as u8]);
        assert(s.last() == (48 + n) as u8);
        assert(s.last() as nat == 48 + n);
        assert(s.take(0) =~= Seq::<u8>::empty());
        assert(dec_val(s.take(0)) == 0);
        assert(dec_val(s) == dec_val(s.take(0)) * 10 + (s.last() - 48) as nat);
    } else {
        lemma_dec_nat_val(n / 10);
        lemma_dec_nat_digits(n / 10);
        assert(s.take(s.len() - 1) =~= spec_dec_nat(n / 10));
        assert(s.last() == (48 + n % 10) as u8);
        assert(n % 10 <= 9);
        assert(s.last() >= 48);
        assert((s.last() - 48) as nat == n % 10);
        assert(dec_val(s) == dec_val(s.take(s.len() - 1)) * 10 + (s.last() - 48) as nat);
        assert(dec_val(s) == (n / 10) * 10 + n % 10);
        assert((n / 10) * 10 + n % 10 == n) by (nonlinear_arith);
    }
}

/// No digit is a line-terminator byte.
pub proof fn lemma_digits_clean(s: Seq<u8>)
    requires
        all_digits(s),
    ensures
        forall|i: int| 0 <= i < s.len() ==> #[trigger] s[i] != CR && s[i] != LF,
{
    assert forall|i: int| 0 <= i < s.len() implies #[trigger] s[i] != CR && s[i] != LF by {
        assert(is_digit(s[i]));
    }
}

/// Every encoded frame occupies at least one byte.
pub proof fn lemma_encode_nonempty(f: FrameView)
    ensures
        spec_encode(f).len() >= 3,
{
    match f {
        FrameView::Simple(s) => {},
        FrameView::Error(s) => {},
        FrameView::Integer(i) => {},
        FrameView::Bulk(b) => {},
        FrameView::NullBulk => {},
        FrameView::Array(v) => {},
        FrameView::NullArray => {},
    }
}

/// In `[marker] + payload + \r\n + rest` with a terminator-free payload,
/// the first line terminator is the one after the payload.
proof fn lemma_find_after_payload(b: Seq<u8>, payload: Seq<u8>, rest: Seq<u8>)
    requires
        b =~= seq![b[0]] + payload + spec_crlf() + rest,
        b.len() == 1 + payload.len() + 2 + rest.len(),
        forall|i: int| 0 <= i < payload.len() ==> #[trigger] payload[i] != CR && payload[i] != LF,
    ensures
        find_crlf_from(b, 1) == Some(1 + payload.len() as int),
{
    let j = 1 + payload.len() as int;
    assert(b[j] == CR);
    assert(b[j + 1] == LF);
    assert forall|k: int| 1 <= k < j implies !(#[trigger] b[k] == CR && b[k + 1] == LF) by {
        assert(b[k] == payload[k - 1]);
    }
    lemma_find_crlf_some(b, 1, j);
}

/// Decoding the encoding of a well-formed frame, with anything at all
/// appended, finds exactly that frame and consumes exactly its bytes.
#[verifier::spinoff_prover]
#[verifier::rlimit(100)]
pub proof fn lemma_decode_encode(f: FrameView, rest: Seq<u8>)
    requires
        wf_frame(f),
    ensures
        spec_decode(spec_encode(f) + rest) == (FrameStep::Found {
            frame: f,
            used: spec_encode(f).len() as int,
        }),
    decreases f, 0int,
{
    let enc = spec_encode(f);
    let b = enc + rest;
    match f {
        FrameView::Simple(s) => {
            let j = 1 + s.len() as int;
            assert(b =~= seq![b[0]] + s + spec_crlf() + rest);
            lemma_find_after_payload(b, s, rest);
            assert(b.subrange(1, j) =~= s);
        },
        FrameView::Error(s) => {
            let j = 1 + s.len() as int;
            assert(b =~= seq![b[0]] + s + spec_crlf() + rest);
            lemma_find_after_payload(b, s, rest);
            assert(b.subrange(1, j) =~= s);
        },
        FrameView::Integer(i) => {
            let payload = spec_dec_int(i);
            let j = 1 + payload.len() as int;
            if i < 0 {
                lemma_dec_nat_digits((-i) as nat);
                lemma_dec_nat_val((-i) as nat);
                lemma_digits_clean(spec_dec_nat((-i) as nat));
                assert(forall|k: int|
                    0 <= k < payload.len() ==> #[trigger] payload[k] != CR && payload[k] != LF);
            } else {
                lemma_dec_nat_digits(i as nat);
                lemma_dec_nat_val(i as nat);
                lemma_digits_clean(payload);
            }
            assert(b =~= seq![b[0]] + payload + spec_crlf() + rest);
            lemma_find_after_payload(b, payload, rest);
            let line = b.subrange(1, j);
            assert(line =~= payload);
            if i < 0 {
                let digits = spec_dec_nat((-i) as nat);
                assert(line[0] == 45);
                assert(line.subrange(1, line.len() as int) =~= digits);
                assert(spec_decode_integer(line, j + 2) == (FrameStep::Found {
                    frame: FrameView::Integer(i),
                    used: j + 2,
                }));
            } else {
                assert(line[0] != 45);
                assert(spec_decode_integer(line, j + 2) == (FrameStep::Found {
                    frame: FrameView::Integer(i),
                    used: j + 2,
                }));
            }
        },
        FrameView::Bulk(bs) => {
            let dig = spec_dec_nat(bs.len());
            lemma_dec_nat_digits(bs.len());
            lemma_dec_nat_val(bs.len());
            lemma_digits_clean(dig);
            let j = 1 + dig.len() as int;
            let after = j + 2;
            assert(b =~= seq![b[0]] + dig + spec_crlf() + (bs + spec_crlf() + rest));
            lemma_find_after_payload(b, dig, bs + spec_crlf() + rest);
            let line = b.subrange(1, j);
            assert(line =~= dig);
            assert(spec_header(line) == HeaderLine::Count(bs.len() as nat));
            let n = bs.len() as int;
            assert(b.len() >= after + n + 2);
            assert(b[after + n] == CR);
            assert(b[after + n + 1] == LF);
            assert(b.subrange(after, after + n) =~= bs);
            assert(after + n + 2 == enc.len());
        },
        FrameView::NullBulk => {
            assert(b[0] == 36);
            assert(b[1] == 45);
            assert(b[2] == 49);
            assert(b[3] == CR);
            assert(b[4] == LF);
            lemma_find_crlf_some(b, 1, 3);
            let line = b.subrange(1, 3);
            assert(line =~= seq![45u8, 49u8]);
            assert(line.subrange(1, 2) =~= seq![49u8]);
            assert(spec_header(line) is Nil);
        },
        FrameView::Array(v) => {
            let dig = spec_dec_nat(v.len());
            lemma_dec_nat_digits(v.len());
            lemma_dec_nat_val(v.len());
            lemma_digits_clean(dig);
            let j = 1 + dig.len() as int;
            let after = j + 2;
            let body = spec_encode_seq(v);
            assert(b =~= seq![b[0]] + dig + spec_crlf() + (body + rest));
            lemma_find_after_payload(b, dig, body + rest);
            let line = b.subrange(1, j);
            assert(line =~= dig);
            assert(spec_header(line) == HeaderLine::Count(v.len() as nat));
            assert(b.subrange(after, b.len() as int) =~= body + rest);
            lemma_decode_encode_items(v, rest);
            assert(after + body.len() == enc.len());
        },
        FrameView::NullArray => {
            assert(b[0] == 42);
            assert(b[1] == 45);
            assert(b[2] == 49);
            assert(b[3] == CR);
            assert(b[4] == LF);
            lemma_find_crlf_some(b, 1, 3);
            let line = b.subrange(1, 3);
            assert(line =~= seq![45u8, 49u8]);
            assert(line.subrange(1, 2) =~= seq![49u8]);
            assert(spec_header(line) is Nil);
        },
    }
}

/// Decoding the concatenated encodings of well-formed frames, with
/// anything appended, finds exactly those frames.
#[verifier::spinoff_prover]
#[verifier::rlimit(50)]
pub proof fn lemma_decode_encode_items(s: Seq<FrameView>, rest: Seq<u8>)
    requires
        forall|i: int| 0 <= i < s.len() ==> wf_frame(#[trigger] s[i]),
    ensures
        spec_decode_items(spec_encode_seq(s) + rest, s.len()) == (ItemsStep::Found {
            items: s,
            used: spec_encode_seq(s).len() as int,
        }),
    decreases s, 1int,
{
    let body = spec_encode_seq(s);
    let b = body + rest;
    if s.len() == 0 {
        assert(s =~= Seq::<FrameView>::empty());
        assert(spec_decode_items(b, 0) == (ItemsStep::Found {
            items: Seq::<FrameView>::empty(),
            used: 0int,
        }));
    } else {
        let head = s[0];
        let tail = s.subrange(1, s.len() as int);
        let enc0 = spec_encode(head);
        let body1 = spec_encode_seq(tail);
        assert(b =~= enc0 + (body1 + rest));
        lemma_decode_encode(head, body1 + rest);
        lemma_encode_nonempty(head);
        assert(spec_decode(b) == (FrameStep::Found {
            frame: head,
            used: enc0.len() as int,
        }));
        assert(b.subrange(enc0.len() as int, b.len() as int) =~= body1 + rest);
        lemma_decode_encode_items(tail, rest);
        assert(seq![head] + tail =~= s);
    }
}

} // verus!

// ---------------------------------------------------------------------------
// Wide decimal helpers for stream identifiers
// ---------------------------------------------------------------------------

verus! {

/// Appends the decimal digits of `n` to `out`.
pub fn push_dec_u128(out: &mut Vec<u8>, n: u128)
    ensures
        final(out)@ == old(out)@ + spec_dec_nat(n as nat),
    decreases n,
{
    if n < 10 {
        out.push((48 + n as u8) as u8);
    } else {
        push_dec_u128(out, n / 10);
        out.push(48 + (n % 10) as u8);
    }
}

/// The value of the digit string `input[lo..hi]`, unless it exceeds
/// `u128`.
pub fn parse_val_u128(input: &Vec<u8>, lo: usize, hi: usize) -> (r: Option<u128>)
    requires
        lo <= hi <= input@.len(),
        all_digits(input@.subrange(lo as int, hi as int)),
    ensures
        match r {
            Some(v) => v as nat == dec_val(input@.subrange(lo as int, hi as int)),
            None => dec_val(input@.subrange(lo as int, hi as int)) > u128::MAX,
        },
{
    let ghost sub = input@.subrange(lo as int, hi as int);
    let mut acc: u128 = 0;
    let mut over: bool = false;
    let mut k = lo;
    proof {
        assert(sub.take(0) =~= Seq::<u8>::empty());
    }
    while k < hi
        invariant
            lo <= k <= hi <= input@.len(),
            sub == input@.subrange(lo as int, hi as int),
            all_digits(sub),
            !over ==> acc as nat == dec_val(sub.take(k - lo)),
            over ==> dec_val(sub.take(k - lo)) > u128::MAX,
        decreases hi - k,
    {
        let c = input[k];
        proof {
            assert(sub[k - lo] == input@[k as int]);
            assert(is_digit(sub[k - lo]));
            lemma_dec_val_step(sub, k - lo);
        }
        let d = (c - 48) as u128;
        if over {
            // once past the range, later digits keep it past the range
        } else {
            if acc > (u128::MAX - d) / 10 {
                over = true;
                proof {
                    assert(acc as nat * 10 + d as nat > u128::MAX) by (nonlinear_arith)
                        requires
                            acc as nat > ((u128::MAX - d) as nat) / 10,
                            d as nat <= 9,
                    ;
                }
            } else {
                proof {
                    assert(acc as nat * 10 + d as nat <= u128::MAX) by (nonlinear_arith)
                        requires
                            acc as nat <= ((u128::MAX - d) as nat) / 10,
                            d as nat <= 9,
                    ;
                }
                acc = acc * 10 + d;
            }
        }
        k = k + 1;
    }
    proof {
        assert(sub.take(hi - lo) =~= sub);
    }
    if over {
        None
    } else {
        Some(acc)
    }
}

} // verus!
