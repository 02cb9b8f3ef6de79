//! Conversions between strings, characters and UTF-8 bytes.
//!
//! The crate measures text character by character but stores it as UTF-8
//! bytes, so a small bridge to the standard library is needed: the trusted
//! wrappers here convert between the two representations, and the verified
//! lemmas relate `vstd`'s UTF-8 encoding and decoding functions across
//! concatenation.

use vstd::prelude::*;
use vstd::utf8::{
    decode_utf8, encode_scalar, encode_utf8, encode_utf8_decode_utf8, encode_utf8_first_scalar,
    encode_utf8_valid_utf8, is_char_boundary_iff_not_is_continuation_byte, valid_utf8,
    valid_utf8_concat, decode_utf8_split, char_is_scalar,
};

verus! {

/// Relies on `str::chars`: it yields exactly the characters of the string,
/// in order.
#[verifier::external_body]
pub(crate) fn chars_vec(s: &str) -> (r: Vec<char>)
    ensures
        r@ == s@,
{
    s.chars().collect()
}

/// Relies on `String: FromIterator<char>`: collecting characters builds the
/// string holding exactly those characters, in order.
#[verifier::external_body]
pub(crate) fn string_from_chars(v: &Vec<char>) -> (r: String)
    ensures
        r@ == v@,
{
    v.iter().collect()
}

/// Relies on `std::str::from_utf8`: it succeeds exactly on valid UTF-8 input
/// and yields its decoding.
#[verifier::external_body]
pub(crate) fn try_decode(b: &[u8]) -> (r: Option<Vec<char>>)
    ensures
        r is Some <==> valid_utf8(b@),
        r matches Some(cs) ==> cs@ == decode_utf8(b@),
{
    match std::str::from_utf8(b) {
        Ok(s) => Some(s.chars().collect()),
        Err(_) => None,
    }
}

/// Copies a slice of characters into a fresh vector.
pub(crate) fn clone_chars(v: &[char]) -> (r: Vec<char>)
    ensures
        r@ == v@,
{
    let n = v.len();
    let mut out: Vec<char> = Vec::new();
    let mut i: usize = 0;
    while i < n
        invariant
            n == v@.len(),
            i <= n,
            out@ == v@.take(i as int),
        decreases n - i,
    {
        out.push(v[i]);
        proof {
            assert(v@.take(i + 1 as int) =~= v@.take(i as int).push(v@[i as int]));
        }
        i = i + 1;
    }
    proof {
        assert(v@.take(n as int) =~= v@);
    }
    out
}

/// Appends the UTF-8 encoding of `c` to `out`.
pub(crate) fn push_encoded_char(out: &mut Vec<u8>, c: char)
    ensures
        final(out)@ == old(out)@ + encode_scalar(c as u32),
{
    proof {
        char_is_scalar(c);
    }
    let u = c as u32;
    if u < 0x80 {
        out.push((u & 0x7f) as u8);
        assert(out@ =~= old(out)@ + encode_scalar(c as u32));
    } else if u < 0x800 {
        out.push(0xc0u8 | (((u >> 6) & 0x1f) as u8));
        out.push(0x80u8 | ((u & 0x3f) as u8));
        assert(out@ =~= old(out)@ + encode_scalar(c as u32));
    } else if u < 0x10000 {
        out.push(0xe0u8 | (((u >> 12) & 0x0f) as u8));
        out.push(0x80u8 | (((u >> 6) & 0x3f) as u8));
        out.push(0x80u8 | ((u & 0x3f) as u8));
        assert(out@ =~= old(out)@ + encode_scalar(c as u32));
    } else {
        out.push(0xf0u8 | (((u >> 18) & 0x7) as u8));
        out.push(0x80u8 | (((u >> 12) & 0x3f) as u8));
        out.push(0x80u8 | (((u >> 6) & 0x3f) as u8));
        out.push(0x80u8 | ((u & 0x3f) as u8));
        assert(out@ =~= old(out)@ + encode_scalar(c as u32));
    }
}

/// Appends the UTF-8 encoding of all of `cs` to `out`.
pub(crate) fn push_encoded_chars(out: &mut Vec<u8>, cs: &[char])
    ensures
        final(out)@ == old(out)@ + encode_utf8(cs@),
{
    let n = cs.len();
    let mut i: usize = 0;
    while i < n
        invariant
            n == cs@.len(),
            i <= n,
            out@ == old(out)@ + encode_utf8(cs@.take(i as int)),
        decreases n - i,
    {
        push_encoded_char(out, cs[i]);
        proof {
            assert(cs@.take(i + 1 as int) =~= cs@.take(i as int).push(cs@[i as int]));
            lemma_encode_push(cs@.take(i as int), cs@[i as int]);
        }
        i = i + 1;
    }
    proof {
        assert(cs@.take(n as int) =~= cs@);
    }
}

/// Encoding a sequence extended by one character appends that character's
/// encoding.
pub proof fn lemma_encode_push(s: Seq<char>, c: char)
    ensures
        encode_utf8(s.push(c)) == encode_utf8(s) + encode_scalar(c as u32),
    decreases s.len(),
{
    if s.len() == 0 {
        assert(s.push(c).drop_first() =~= s);
        assert(encode_utf8(s.push(c)) =~= encode_utf8(s) + encode_scalar(c as u32));
    } else {
        assert(s.push(c).drop_first() =~= s.drop_first().push(c));
        lemma_encode_push(s.drop_first(), c);
        assert(encode_utf8(s.push(c)) =~= encode_utf8(s) + encode_scalar(c as u32));
    }
}

/// Encoding distributes over concatenation.
pub proof fn lemma_encode_concat(a: Seq<char>, b: Seq<char>)
    ensures
        encode_utf8(a + b) == encode_utf8(a) + encode_utf8(b),
    decreases a.len(),
{
    if a.len() == 0 {
        assert(a + b =~= b);
        assert(encode_utf8(a + b) =~= encode_utf8(a) + encode_utf8(b));
    } else {
        assert((a + b).drop_first() =~= a.drop_first() + b);
        lemma_encode_concat(a.drop_first(), b);
        assert(encode_utf8(a + b) =~= encode_utf8(a) + encode_utf8(b));
    }
}

/// A character sequence never outgrows its UTF-8 encoding.
pub proof fn lemma_encode_ge_len(s: Seq<char>)
    ensures
        encode_utf8(s).len() >= s.len(),
    decreases s.len(),
{
    if s.len() > 0 {
        lemma_encode_ge_len(s.drop_first());
        char_is_scalar(s[0]);
    }
}

/// Appending the encoding of characters to a valid UTF-8 byte sequence keeps
/// it valid, and the decoding grows by exactly those characters.
pub proof fn lemma_decode_append(b: Seq<u8>, cs: Seq<char>)
    requires
        valid_utf8(b),
    ensures
        valid_utf8(b + encode_utf8(cs)),
        decode_utf8(b + encode_utf8(cs)) == decode_utf8(b) + cs,
{
    let enc = encode_utf8(cs);
    encode_utf8_valid_utf8(cs);
    valid_utf8_concat(b, enc);
    let whole = b + enc;
    if cs.len() == 0 {
        assert(whole =~= b);
        encode_utf8_decode_utf8(cs);
        assert(decode_utf8(b) + cs =~= decode_utf8(b));
    } else {
        encode_utf8_first_scalar(cs);
        assert(enc.len() > 0);
        assert(!vstd::utf8::is_continuation_byte(whole[b.len() as int]));
        is_char_boundary_iff_not_is_continuation_byte(whole, b.len() as int);
        decode_utf8_split(whole, b.len() as int);
        assert(whole.subrange(0, b.len() as int) =~= b);
        assert(whole.subrange(b.len() as int, whole.len() as int) =~= enc);
        encode_utf8_decode_utf8(cs);
        assert(decode_utf8(whole) =~= decode_utf8(b) + cs);
    }
}

} // verus!
