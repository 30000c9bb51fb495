//! The per-connection message assembler: a line-fed state machine.
//!
//! The connection loop splits its input at line terminators and feeds
//! each piece to [`RespMessage::parse`]; a message accumulates its kind
//! marker, its length or integer, and its text, and array elements are
//! assembled by the caller from completed child messages.  The whole
//! behaviour of `parse` is one fold, [`spec_steps`], over the characters
//! given, followed by the state promotion [`spec_finish`].

use vstd::prelude::*;

verus! {

/// Where a message stands between lines.
#[derive(Debug, Clone, Copy, PartialEq, Eq, Structural)]
pub enum RespParsingState {
    /// Reading the kind marker or a length.
    ParsingMeta,
    /// Reading payload text.
    ParsingData,
    /// Complete.
    End,
}

/// The five RESP kinds, or nothing yet.
#[derive(Debug, Clone, Copy, PartialEq, Eq, Structural)]
pub enum RespType {
    Unknown,
    Integer,
    Error,
    SimpleString,
    BulkString,
    Array,
}

/// One message under assembly.
#[derive(Debug)]
pub struct RespMessage {
    /// The peer this message arrived from.
    pub remote_addr: String,
    pub resp_type: RespType,
    pub state: RespParsingState,
    /// A length while parsing a bulk or array header; the value of an
    /// integer message; the bulk bytes still owed.
    pub int_data: i64,
    pub str_data: String,
    /// Completed elements of an array message.
    pub vec_data: Vec<RespMessage>,
}

/// The part of a message one `parse` call works on.
pub struct ParseCore {
    pub typ: RespType,
    pub state: RespParsingState,
    pub int_data: i64,
    pub text: Seq<char>,
}

/// That part, read off a message.
pub open spec fn core_of(m: RespMessage) -> ParseCore {
    ParseCore { typ: m.resp_type, state: m.state, int_data: m.int_data, text: m.str_data@ }
}

/// `x` clamped into `i64`.
pub open spec fn sat_i64(x: int) -> i64 {
    if x > i64::MAX {
        i64::MAX
    } else if x < i64::MIN {
        i64::MIN
    } else {
        x as i64
    }
}

/// A length or integer accumulator folded over one more digit,
/// clamped at the ends of `i64`.
pub open spec fn digit_step(i: i64, d: int) -> i64 {
    if i * 10 > i64::MAX {
        i64::MAX
    } else if i * 10 < i64::MIN {
        i64::MIN
    } else {
        sat_i64(i * 10 + d)
    }
}

/// A decimal digit character's value, or nothing.
pub open spec fn char_digit(c: char) -> Option<int> {
    if 48 <= c as u32 <= 57 {
        Some(c as u32 - 48)
    } else {
        None
    }
}

/// One character of input moves the assembler one step: markers choose
/// the kind while the meta part is read; digits build a length; text
/// accumulates; a bulk consumes exactly the bytes its header promised.
pub open spec fn spec_step(m: ParseCore, c: char) -> ParseCore {
    if c == '+' {
        if m.state is ParsingMeta {
            ParseCore { typ: RespType::SimpleString, state: RespParsingState::ParsingData, ..m }
        } else {
            ParseCore { text: m.text.push(c), ..m }
        }
    } else if c == '-' {
        if m.state is ParsingMeta {
            ParseCore { typ: RespType::Error, state: RespParsingState::ParsingData, ..m }
        } else {
            ParseCore { text: m.text.push(c), ..m }
        }
    } else if c == ':' {
        if m.state is ParsingMeta {
            ParseCore { typ: RespType::Integer, state: RespParsingState::ParsingData, ..m }
        } else {
            ParseCore { text: m.text.push(c), ..m }
        }
    } else if c == '$' {
        if m.state is ParsingMeta {
            ParseCore { typ: RespType::BulkString, ..m }
        } else {
            ParseCore { text: m.text.push(c), ..m }
        }
    } else if c == '*' {
        if m.state is ParsingMeta {
            ParseCore { typ: RespType::Array, ..m }
        } else {
            ParseCore { text: m.text.push(c), ..m }
        }
    } else {
        match m.typ {
            RespType::SimpleString => if m.state is ParsingData {
                ParseCore { text: m.text.push(c), ..m }
            } else {
                m
            },
            RespType::Error => if m.state is ParsingData {
                ParseCore { text: m.text.push(c), ..m }
            } else {
                m
            },
            RespType::Integer => if m.state is ParsingData {
                match char_digit(c) {
                    Some(d) => ParseCore { int_data: digit_step(m.int_data, d), ..m },
                    None => m,
                }
            } else {
                m
            },
            RespType::BulkString => if m.state is ParsingMeta {
                match char_digit(c) {
                    Some(d) => ParseCore { int_data: digit_step(m.int_data, d), ..m },
                    None => m,
                }
            } else if m.state is ParsingData && m.int_data > 0 {
                ParseCore { text: m.text.push(c), int_data: (m.int_data - 1) as i64, ..m }
            } else {
                m
            },
            RespType::Array => if m.state is ParsingMeta {
                match char_digit(c) {
                    Some(d) => ParseCore { int_data: digit_step(m.int_data, d), ..m },
                    None => m,
                }
            } else {
                m
            },
            RespType::Unknown => m,
        }
    }
}

/// The fold of [`spec_step`] over a string of input.
pub open spec fn spec_steps(m: ParseCore, s: Seq<char>) -> ParseCore
    decreases s.len(),
{
    if s.len() == 0 {
        m
    } else {
        spec_step(spec_steps(m, s.drop_last()), s.last())
    }
}

/// The promotion at the end of a line: data read means the message is
/// complete; a header read means payload comes next.
pub open spec fn spec_finish(m: ParseCore) -> ParseCore {
    if m.state is ParsingData {
        ParseCore { state: RespParsingState::End, ..m }
    } else if m.state is ParsingMeta {
        ParseCore { state: RespParsingState::ParsingData, ..m }
    } else {
        m
    }
}

impl RespMessage {
    /// An empty message from the given peer.
    pub fn new(addr: String) -> (r: RespMessage)
        ensures
            r.remote_addr@ == addr@,
            r.resp_type is Unknown,
            r.state is ParsingMeta,
            r.int_data == 0,
            r.str_data@ == Seq::<char>::empty(),
            r.vec_data@.len() == 0,
    {
        RespMessage {
            remote_addr: addr,
            resp_type: RespType::Unknown,
            state: RespParsingState::ParsingMeta,
            int_data: 0,
            str_data: String::new(),
            vec_data: Vec::new(),
        }
    }

    /// Feeds one line of input (text between line terminators) to the
    /// assembler: the fold of the step function, then the promotion.
    /// The peer address and any assembled elements stay as they are.
    pub fn parse(&mut self, data: &str)
        ensures
            core_of(*final(self)) == spec_finish(spec_steps(core_of(*old(self)), data@)),
            final(self).remote_addr == old(self).remote_addr,
            final(self).vec_data == old(self).vec_data,
    {
        let n = data.unicode_len();
        let mut i: usize = 0;
        proof {
            assert(data@.take(0) =~= Seq::<char>::empty());
        }
        while i < n
            invariant
                i <= n,
                n == data@.len(),
                core_of(*self) == spec_steps(core_of(*old(self)), data@.take(i as int)),
                self.remote_addr == old(self).remote_addr,
                self.vec_data == old(self).vec_data,
            decreases n - i,
        {
            let c = data.get_char(i);
            proof {
                assert(data@.take(i + 1).drop_last() =~= data@.take(i as int));
                assert(data@.take(i + 1).last() == data@[i as int]);
            }
            self.step_char(c);
            i = i + 1;
        }
        proof {
            assert(data@.take(n as int) =~= data@);
        }
        if matches!(self.state, RespParsingState::ParsingData) {
            self.state = RespParsingState::End;
        } else if matches!(self.state, RespParsingState::ParsingMeta) {
            self.state = RespParsingState::ParsingData;
        }
    }

    /// One step of the assembler.
    fn step_char(&mut self, c: char)
        ensures
            core_of(*final(self)) == spec_step(core_of(*old(self)), c),
            final(self).remote_addr == old(self).remote_addr,
            final(self).vec_data == old(self).vec_data,
    {
        if c == '+' {
            if matches!(self.state, RespParsingState::ParsingMeta) {
                self.resp_type = RespType::SimpleString;
                self.state = RespParsingState::ParsingData;
            } else {
                self.push_text(c);
            }
        } else if c == '-' {
            if matches!(self.state, RespParsingState::ParsingMeta) {
                self.resp_type = RespType::Error;
                self.state = RespParsingState::ParsingData;
            } else {
                self.push_text(c);
            }
        } else if c == ':' {
            if matches!(self.state, RespParsingState::ParsingMeta) {
                self.resp_type = RespType::Integer;
                self.state = RespParsingState::ParsingData;
            } else {
                self.push_text(c);
            }
        } else if c == '$' {
            if matches!(self.state, RespParsingState::ParsingMeta) {
                self.resp_type = RespType::BulkString;
            } else {
                self.push_text(c);
            }
        } else if c == '*' {
            if matches!(self.state, RespParsingState::ParsingMeta) {
                self.resp_type = RespType::Array;
            } else {
                self.push_text(c);
            }
        } else {
            match self.resp_type {
                RespType::SimpleString => {
                    if matches!(self.state, RespParsingState::ParsingData) {
                        self.push_text(c);
                    }
                },
                RespType::Error => {
                    if matches!(self.state, RespParsingState::ParsingData) {
                        self.push_text(c);
                    }
                },
                RespType::Integer => {
                    if matches!(self.state, RespParsingState::ParsingData) {
                        self.push_digit(c);
                    }
                },
                RespType::BulkString => {
                    if matches!(self.state, RespParsingState::ParsingMeta) {
                        self.push_digit(c);
                    } else if matches!(self.state, RespParsingState::ParsingData) && self.int_data
                        > 0 {
                        self.push_text(c);
                        self.int_data = self.int_data - 1;
                    }
                },
                RespType::Array => {
                    if matches!(self.state, RespParsingState::ParsingMeta) {
                        self.push_digit(c);
                    }
                },
                RespType::Unknown => {},
            }
        }
    }

    /// Appends one character of payload text.
    fn push_text(&mut self, c: char)
        ensures
            final(self).str_data@ == old(self).str_data@.push(c),
            final(self).resp_type == old(self).resp_type,
            final(self).state == old(self).state,
            final(self).int_data == old(self).int_data,
            final(self).remote_addr == old(self).remote_addr,
            final(self).vec_data == old(self).vec_data,
    {
        crate::text::push_char(&mut self.str_data, c);
    }

    /// Folds one digit into the running length or integer, clamping at
    /// the top of the range; a non-digit changes nothing.
    fn push_digit(&mut self, c: char)
        ensures
            ({
                let want = (match char_digit(c) {
                    Some(d) => digit_step(old(self).int_data, d),
                    None => old(self).int_data,
                });
                final(self).int_data == want
            }),
            final(self).resp_type == old(self).resp_type,
            final(self).state == old(self).state,
            final(self).str_data == old(self).str_data,
            final(self).remote_addr == old(self).remote_addr,
            final(self).vec_data == old(self).vec_data,
    {
        let u = c as u32;
        if u >= 48 && u <= 57 {
            let d = (u - 48) as i64;
            let stepped = match self.int_data.checked_mul(10) {
                Some(m) => match m.checked_add(d) {
                    Some(v) => v,
                    None => i64::MAX,
                },
                None => {
                    if self.int_data > 0 {
                        i64::MAX
                    } else {
                        i64::MIN
                    }
                },
            };
            self.int_data = stepped;
        }
    }
}

} // verus!

// ---------------------------------------------------------------------------
// From decoded frames to messages
// ---------------------------------------------------------------------------

verus! {

use crate::resp::{frame_view, views_of, FrameView, RespFrame};
use crate::text::chars_of_bytes;

/// How one frame element maps into a message element: bulk, simple and
/// error text is carried; an integer is carried in the counter; other
/// shapes carry nothing.
pub open spec fn element_like(m: RespMessage, f: FrameView) -> bool {
    match f {
        FrameView::Bulk(b) => m.resp_type is BulkString && m.str_data@ == chars_of_bytes(b),
        FrameView::Simple(s) => m.resp_type is SimpleString && m.str_data@ == chars_of_bytes(s),
        FrameView::Error(s) => m.resp_type is Error && m.str_data@ == chars_of_bytes(s),
        FrameView::Integer(i) => m.resp_type is Integer && m.int_data as int == i,
        _ => m.resp_type is Unknown,
    }
}

/// The message a decoded frame denotes, ready for the dispatcher: an
/// array becomes a completed message whose elements carry their text;
/// the other kinds become single completed messages.
pub fn message_of_frame(f: RespFrame, addr: String) -> (r: RespMessage)
    ensures
        r.remote_addr@ == addr@,
        r.state is End,
        match frame_view(f) {
            FrameView::Array(items) => r.resp_type is Array && r.vec_data@.len() == items.len()
                && (forall|j: int|
                0 <= j < items.len() ==> element_like(#[trigger] r.vec_data@[j], items[j])),
            FrameView::NullArray => r.resp_type is Array && r.vec_data@.len() == 0,
            other => element_like(r, other) && r.vec_data@.len() == 0,
        },
{
    match f {
        RespFrame::Array(items) => {
            let ghost ivs = views_of(items@);
            proof {
                crate::resp::lemma_views_of(items@);
            }
            let n = items.len();
            let mut elems: Vec<RespMessage> = Vec::new();
            let mut j: usize = 0;
            while j < n
                invariant
                    j <= n,
                    n == items@.len(),
                    ivs == views_of(items@),
                    ivs.len() == n,
                    elems@.len() == j,
                    forall|i: int|
                        0 <= i < j ==> element_like(#[trigger] elems@[i], ivs[i]) && elems@[i].state
                            is End && elems@[i].remote_addr@ == addr@,
                decreases n - j,
            {
                proof {
                    crate::resp::lemma_views_of(items@);
                    assert(ivs[j as int] == frame_view(items@[j as int]));
                }
                let elem = match &items[j] {
                    RespFrame::Bulk(b) => element_message(
                        RespType::BulkString,
                        crate::text::bytes_to_string(&crate::resp::copy_range(b, 0, b.len())),
                        0,
                        addr.clone(),
                    ),
                    RespFrame::Simple(s) => element_message(
                        RespType::SimpleString,
                        crate::text::bytes_to_string(&crate::resp::copy_range(s, 0, s.len())),
                        0,
                        addr.clone(),
                    ),
                    RespFrame::Error(s) => element_message(
                        RespType::Error,
                        crate::text::bytes_to_string(&crate::resp::copy_range(s, 0, s.len())),
                        0,
                        addr.clone(),
                    ),
                    RespFrame::Integer(i) => element_message(
                        RespType::Integer,
                        String::new(),
                        *i,
                        addr.clone(),
                    ),
                    _ => element_message(RespType::Unknown, String::new(), 0, addr.clone()),
                };
                proof {
                    match ivs[j as int] {
                        FrameView::Bulk(bv) => {
                            assert(elem.str_data@ =~= chars_of_bytes(bv));
                        },
                        FrameView::Simple(sv) => {
                            assert(elem.str_data@ =~= chars_of_bytes(sv));
                        },
                        FrameView::Error(sv) => {
                            assert(elem.str_data@ =~= chars_of_bytes(sv));
                        },
                        _ => {},
                    }
                }
                elems.push(elem);
                j = j + 1;
            }
            RespMessage {
                remote_addr: addr,
                resp_type: RespType::Array,
                state: RespParsingState::End,
                int_data: 0,
                str_data: String::new(),
                vec_data: elems,
            }
        },
        RespFrame::NullArray => RespMessage {
            remote_addr: addr,
            resp_type: RespType::Array,
            state: RespParsingState::End,
            int_data: 0,
            str_data: String::new(),
            vec_data: Vec::new(),
        },
        RespFrame::Bulk(b) => element_message(
            RespType::BulkString,
            crate::text::bytes_to_string(&b),
            0,
            addr,
        ),
        RespFrame::Simple(s) => element_message(
            RespType::SimpleString,
            crate::text::bytes_to_string(&s),
            0,
            addr,
        ),
        RespFrame::Error(s) => element_message(
            RespType::Error,
            crate::text::bytes_to_string(&s),
            0,
            addr,
        ),
        RespFrame::Integer(i) => element_message(RespType::Integer, String::new(), i, addr),
        RespFrame::NullBulk => element_message(RespType::Unknown, String::new(), 0, addr),
    }
}

/// One completed message element.
fn element_message(typ: RespType, text: String, int_data: i64, addr: String) -> (r: RespMessage)
    ensures
        r.resp_type == typ,
        r.str_data@ == text@,
        r.int_data == int_data,
        r.remote_addr@ == addr@,
        r.state is End,
        r.vec_data@.len() == 0,
{
    RespMessage {
        remote_addr: addr,
        resp_type: typ,
        state: RespParsingState::End,
        int_data,
        str_data: text,
        vec_data: Vec::new(),
    }
}

} // verus!
