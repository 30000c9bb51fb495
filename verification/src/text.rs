//! Bytes and text.  The wire carries bytes; keys, values and command
//! words live as `String`s.  One byte maps to one `char` and back, as a
//! connection reading one byte at a time would see it.

use vstd::prelude::*;

verus! {

/// The characters denoted by a byte string, one per byte.
pub open spec fn chars_of_bytes(s: Seq<u8>) -> Seq<char> {
    s.map_values(|b: u8| b as char)
}

/// The bytes of a character string whose characters all fit in one
/// byte; other characters are truncated, as the decoder never produces
/// them.
pub open spec fn bytes_of_chars(s: Seq<char>) -> Seq<u8> {
    s.map_values(|c: char| c as u8)
}

/// Every character fits in one byte, so the text is exactly its byte
/// view under `bytes_of_chars`.
pub open spec fn small_chars(s: Seq<char>) -> bool {
    forall|i: int| 0 <= i < s.len() ==> #[trigger] (s[i] as u32) < 256
}

/// Bytes read back as characters are one-byte characters.
pub proof fn lemma_chars_of_bytes_small(b: Seq<u8>)
    ensures
        small_chars(chars_of_bytes(b)),
{
    assert forall|i: int| 0 <= i < chars_of_bytes(b).len() implies (#[trigger] (chars_of_bytes(
        b,
    )[i] as u32)) < 256 by {
        assert(chars_of_bytes(b)[i] == b[i] as char);
    }
}

/// Relies on `String::push`: appends one character.
#[verifier::external_body]
pub fn push_char(s: &mut String, c: char)
    ensures
        final(s)@ == old(s)@.push(c),
{
    s.push(c);
}

/// The string whose characters are the bytes of `v`, byte by byte.
pub fn bytes_to_string(v: &Vec<u8>) -> (r: String)
    ensures
        r@ == chars_of_bytes(v@),
{
    let mut out = String::new();
    let mut k: usize = 0;
    proof {
        assert(chars_of_bytes(v@.take(0)) =~= Seq::<char>::empty());
    }
    while k < v.len()
        invariant
            k <= v.len(),
            out@ == chars_of_bytes(v@.take(k as int)),
        decreases v.len() - k,
    {
        push_char(&mut out, v[k] as char);
        proof {
            assert(chars_of_bytes(v@.take(k + 1)) =~= chars_of_bytes(v@.take(k as int)).push(
                v@[k as int] as char,
            ));
        }
        k = k + 1;
    }
    proof {
        assert(v@.take(v@.len() as int) =~= v@);
    }
    out
}

/// The bytes of `s`, character by character; characters beyond one byte
/// are truncated.
pub fn string_to_bytes(s: &str) -> (r: Vec<u8>)
    ensures
        r@ == bytes_of_chars(s@),
{
    let mut out: Vec<u8> = Vec::new();
    let n = s.unicode_len();
    let mut k: usize = 0;
    proof {
        assert(bytes_of_chars(s@.take(0)) =~= Seq::<u8>::empty());
    }
    while k < n
        invariant
            k <= n,
            n == s@.len(),
            out@ == bytes_of_chars(s@.take(k as int)),
        decreases n - k,
    {
        let c = s.get_char(k);
        #[verifier::truncate]
        let b = c as u8;
        out.push(b);
        proof {
            assert(bytes_of_chars(s@.take(k + 1)) =~= bytes_of_chars(s@.take(k as int)).push(
                s@[k as int] as u8,
            ));
        }
        k = k + 1;
    }
    proof {
        assert(s@.take(s@.len() as int) =~= s@);
    }
    out
}

/// Lower-cases one byte of ASCII text; other bytes pass unchanged.
pub open spec fn spec_lower_byte(b: u8) -> u8 {
    if 65 <= b <= 90 {
        (b + 32) as u8
    } else {
        b
    }
}

/// Lower-cases a byte string of ASCII text.
pub open spec fn spec_lower(s: Seq<u8>) -> Seq<u8> {
    s.map_values(|b: u8| spec_lower_byte(b))
}

/// Lower-cases ASCII letters in place of a byte string.
pub fn lower_bytes(v: &Vec<u8>) -> (r: Vec<u8>)
    ensures
        r@ == spec_lower(v@),
{
    let mut out: Vec<u8> = Vec::new();
    let mut k: usize = 0;
    proof {
        assert(spec_lower(v@.take(0)) =~= Seq::<u8>::empty());
    }
    while k < v.len()
        invariant
            k <= v.len(),
            out@ == spec_lower(v@.take(k as int)),
        decreases v.len() - k,
    {
        let b = v[k];
        if 65 <= b && b <= 90 {
            out.push(b + 32);
        } else {
            out.push(b);
        }
        proof {
            assert(spec_lower(v@.take(k + 1)) =~= spec_lower(v@.take(k as int)).push(
                spec_lower_byte(v@[k as int]),
            ));
        }
        k = k + 1;
    }
    proof {
        assert(v@.take(v@.len() as int) =~= v@);
    }
    out
}

/// Whether `v` spells the same ASCII word as `w`, ignoring letter case.
pub fn eq_ignore_case(v: &Vec<u8>, w: &str) -> (r: bool)
    ensures
        r == (spec_lower(v@) == spec_lower(bytes_of_chars(w@))),
{
    let wb = string_to_bytes(w);
    let lv = lower_bytes(v);
    let lw = lower_bytes(&wb);
    let r = eq_bytes(&lv, &lw);
    proof {
        if lv@ =~= lw@ {
            assert(spec_lower(v@) == spec_lower(bytes_of_chars(w@)));
        }
    }
    r
}

/// Byte-for-byte equality of two vectors.
pub fn eq_bytes(a: &Vec<u8>, b: &Vec<u8>) -> (r: bool)
    ensures
        r == (a@ == b@),
{
    if a.len() != b.len() {
        proof {
            assert(a@.len() != b@.len());
        }
        return false;
    }
    let mut k: usize = 0;
    while k < a.len()
        invariant
            k <= a.len(),
            a@.len() == b@.len(),
            forall|i: int| 0 <= i < k ==> a@[i] == b@[i],
        decreases a.len() - k,
    {
        if a[k] != b[k] {
            return false;
        }
        k = k + 1;
    }
    proof {
        assert(a@ =~= b@);
    }
    true
}

} // verus!

verus! {

/// Reading bytes as characters and back is the identity.
pub proof fn lemma_bytes_chars_bytes(p: Seq<u8>)
    ensures
        bytes_of_chars(chars_of_bytes(p)) == p,
{
    assert forall|i: int| 0 <= i < p.len() implies bytes_of_chars(chars_of_bytes(p))[i] == p[i] by {
        assert(chars_of_bytes(p)[i] == p[i] as char);
    }
    assert(bytes_of_chars(chars_of_bytes(p)) =~= p);
}

} // verus!

// ---------------------------------------------------------------------------
// Hexadecimal text
// ---------------------------------------------------------------------------

verus! {

/// An ASCII hexadecimal digit, either case.
pub open spec fn is_hex_char(c: char) -> bool {
    (48 <= c as u32 <= 57) || (65 <= c as u32 <= 70) || (97 <= c as u32 <= 102)
}

/// The value of a hexadecimal digit.
pub open spec fn hex_char_val(c: char) -> nat {
    if 48 <= c as u32 <= 57 {
        (c as u32 - 48) as nat
    } else if 65 <= c as u32 <= 70 {
        (c as u32 - 55) as nat
    } else if 97 <= c as u32 <= 102 {
        (c as u32 - 87) as nat
    } else {
        0
    }
}

/// An even number of hexadecimal digits.
pub open spec fn valid_hex(s: Seq<char>) -> bool {
    s.len() % 2 == 0 && (forall|i: int| 0 <= i < s.len() ==> is_hex_char(#[trigger] s[i]))
}

/// The bytes a hexadecimal string denotes, two digits each.
pub open spec fn spec_hex_decode(s: Seq<char>) -> Seq<u8> {
    Seq::new(s.len() / 2, |i: int| (hex_char_val(s[2 * i]) * 16 + hex_char_val(s[2 * i + 1])) as u8)
}

/// Relies on `hex::decode`: an even-length string of hexadecimal
/// digits becomes one byte per digit pair; an odd length or any other
/// character is an error.
#[verifier::external_body]
pub fn hex_decode(s: &str) -> (r: Option<Vec<u8>>)
    ensures
        match r {
            Some(v) => valid_hex(s@) && v@ == spec_hex_decode(s@),
            None => !valid_hex(s@),
        },
{
    match hex::decode(s) {
        Ok(v) => Some(v),
        Err(_) => None,
    }
}

} // verus!
