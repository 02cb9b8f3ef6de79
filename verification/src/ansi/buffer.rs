//! An escape-aware byte buffer.
//!
//! [`Buffer`] wraps a [`bytes::BytesMut`] and adds a *visible* length to it:
//! the width its contents would take on a terminal, with escape spans
//! skipped. The buffer is mutated only by appends and read through
//! UTF-8-checked views; it may hold bytes that are not valid UTF-8 (for
//! example after [`Buffer::from`] on raw bytes), in which case every text
//! view reports a decode error rather than guessing.

use vstd::prelude::*;
use vstd::slice::slice_to_vec;
use vstd::utf8::{decode_utf8, decode_utf8_encode_utf8, encode_scalar, encode_utf8, valid_utf8};

use bytes::BytesMut;

use crate::ansi::{char_width_exec, lemma_encode_take_le, lemma_vlen_le_encode, vlen_from, MARKER};
use crate::bytebuf::{bm_bytes, bm_capacity, bm_extend, bm_from_slice, bm_len, bm_new,
    bm_slice, bm_with_capacity};
use crate::error::Error;
use crate::text::{push_encoded_char, string_from_chars, try_decode};

verus! {

/// True when the byte is the escape marker.
pub open spec fn ascii_is_marker(b: u8) -> bool {
    b == 0x1b
}

/// True when the byte, read as a character, terminates an escape span.
pub open spec fn ascii_is_terminator(b: u8) -> bool {
    (0x40 <= b && b <= 0x5a) || (0x61 <= b && b <= 0x7a)
}

/// The byte-wise scanner state after reading one more byte.
pub open spec fn ascii_esc_step(e: bool, b: u8) -> bool {
    if ascii_is_marker(b) {
        true
    } else if e {
        !ascii_is_terminator(b)
    } else {
        false
    }
}

/// The byte-wise scanner state after reading all of `s` from state `e0`.
pub open spec fn ascii_esc_after(s: Seq<u8>, e0: bool) -> bool
    decreases s.len(),
{
    if s.len() == 0 {
        e0
    } else {
        ascii_esc_step(ascii_esc_after(s.drop_last(), e0), s.last())
    }
}

/// The width a single byte counts for in the byte-wise scan: the UTF-8
/// length of the character whose code point equals the byte's value.
pub open spec fn ascii_byte_width(b: u8) -> nat {
    if b < 0x80 {
        1
    } else {
        2
    }
}

/// The visible length of `s` under the byte-wise scan: each byte outside an
/// escape span adds [`ascii_byte_width`]. On ASCII contents this agrees with
/// the character-wise scan; on other contents only the character-wise scan
/// is meaningful.
pub open spec fn ascii_vlen_from(s: Seq<u8>, e0: bool) -> nat
    decreases s.len(),
{
    if s.len() == 0 {
        0
    } else {
        ascii_vlen_from(s.drop_last(), e0) + if !ascii_is_marker(s.last()) && !ascii_esc_after(
            s.drop_last(),
            e0,
        ) {
            ascii_byte_width(s.last())
        } else {
            0
        }
    }
}

/// ASCII bytes decode to the characters with the same code points.
proof fn lemma_ascii_decode(b: Seq<u8>)
    requires
        forall|i: int| 0 <= i < b.len() ==> #[trigger] b[i] < 0x80,
    ensures
        valid_utf8(b),
        decode_utf8(b) == Seq::new(b.len(), |i: int| b[i] as char),
    decreases b.len(),
{
    if b.len() == 0 {
        assert(decode_utf8(b) =~= Seq::new(b.len(), |i: int| b[i] as char));
    } else {
        let b0 = b[0];
        assert(vstd::utf8::is_leading_byte_width_1(b0));
        assert(vstd::utf8::codepoint_width_1(b0) == b0 as u32) by (bit_vector)
            requires
                b0 < 0x80,
        ;
        assert(vstd::utf8::valid_first_scalar(b));
        assert(vstd::utf8::length_of_first_scalar(b) == 1);
        let rest = b.drop_first();
        assert(vstd::utf8::pop_first_scalar(b) =~= rest);
        assert(forall|i: int| 0 <= i < rest.len() ==> #[trigger] rest[i] < 0x80);
        lemma_ascii_decode(rest);
        let c0 = b0 as char;
        assert(c0 as u32 == b0 as u32);
        vstd::utf8::char_u32_cast(c0, b0 as u32);
        assert((vstd::utf8::decode_first_scalar(b) as char) == c0);
        assert(decode_utf8(b) =~= Seq::new(b.len(), |i: int| b[i] as char));
    }
}

/// On ASCII bytes, the two scanners run in lock step: a byte is the marker
/// or a terminator exactly when its character is.
proof fn lemma_ascii_steps_agree(b: u8)
    requires
        b < 0x80,
    ensures
        ascii_is_marker(b) == crate::ansi::is_marker_char(b as char),
        ascii_is_terminator(b) == crate::ansi::is_terminator_char(b as char),
        ascii_byte_width(b) == crate::ansi::char_width(b as char),
{
    let c = b as char;
    assert(c as u32 == b as u32);
    vstd::utf8::char_u32_cast(c, b as u32);
    if b == 0x1b {
        vstd::utf8::char_u32_cast('\u{1b}', 0x1b);
        assert(c == '\u{1b}');
    } else {
        assert(c as u32 != '\u{1b}' as u32);
    }
    assert(vstd::utf8::encode_scalar(c as u32).len() == 1);
}

/// The ASCII fast path and the character-wise path agree on ASCII
/// contents: scanning the raw bytes and scanning the decoded characters
/// report the same visible length, from any starting state. The two entry
/// points may differ only in speed, never in result.
pub proof fn lemma_ascii_paths_agree(b: Seq<u8>, e0: bool)
    requires
        forall|i: int| 0 <= i < b.len() ==> #[trigger] b[i] < 0x80,
    ensures
        valid_utf8(b),
        ascii_esc_after(b, e0) == crate::ansi::esc_after(decode_utf8(b), e0),
        ascii_vlen_from(b, e0) == vlen_from(decode_utf8(b), e0),
    decreases b.len(),
{
    lemma_ascii_decode(b);
    let cs = decode_utf8(b);
    if b.len() == 0 {
    } else {
        let rest = b.drop_last();
        assert(forall|i: int| 0 <= i < rest.len() ==> #[trigger] rest[i] < 0x80);
        lemma_ascii_paths_agree(rest, e0);
        lemma_ascii_decode(rest);
        assert(cs.drop_last() =~= decode_utf8(rest));
        assert(cs.last() == b.last() as char);
        assert(b.last() == b[b.len() - 1]);
        lemma_ascii_steps_agree(b.last());
    }
}

/// A growable byte buffer that can measure the visible width of its
/// contents. Its view is the byte sequence it holds.
pub struct Buffer {
    data: BytesMut,
}

impl View for Buffer {
    type V = Seq<u8>;

    closed spec fn view(&self) -> Seq<u8> {
        bm_bytes(self.data)
    }
}

impl Buffer {
    /// Creates a new, empty buffer.
    pub fn new() -> (r: Buffer)
        ensures
            r@ == Seq::<u8>::empty(),
    {
        Buffer { data: bm_new() }
    }

    /// Creates a new, empty buffer with the given capacity reserved.
    pub fn with_capacity(capacity: usize) -> (r: Buffer)
        ensures
            r@ == Seq::<u8>::empty(),
    {
        Buffer { data: bm_with_capacity(capacity) }
    }

    /// Appends the UTF-8 bytes of the given string slice.
    pub fn push_str(&mut self, s: &str)
        ensures
            final(self)@ == old(self)@ + encode_utf8(s@),
    {
        let b = s.as_bytes();
        bm_extend(&mut self.data, b);
    }

    /// Appends the UTF-8 bytes of the given character.
    pub fn push_char(&mut self, c: char)
        ensures
            final(self)@ == old(self)@ + encode_scalar(c as u32),
    {
        let mut bytes: Vec<u8> = Vec::new();
        push_encoded_char(&mut bytes, c);
        proof {
            assert(bytes@ =~= encode_scalar(c as u32));
        }
        bm_extend(&mut self.data, bytes.as_slice());
    }

    /// A view of the raw bytes held.
    pub fn data<'a>(&'a self) -> (r: &'a [u8])
        ensures
            r@ == self@,
    {
        bm_slice(&self.data)
    }

    /// A reference to the underlying [`BytesMut`].
    pub fn bytes_mut<'a>(&'a self) -> (r: &'a BytesMut)
        ensures
            bm_bytes(*r) == self@,
    {
        &self.data
    }

    /// The visible length of the contents: the sum of the UTF-8 byte lengths
    /// of every character outside an escape span. Tab and newline get no
    /// special treatment here; for column tracking use
    /// [`crate::ansi::visible_width`]. Fails exactly when the contents are
    /// not valid UTF-8.
    pub fn visible_len(&self) -> (r: Result<usize, Error>)
        ensures
            valid_utf8(self@) ==> (r matches Ok(n) && n == vlen_from(decode_utf8(self@), false)),
            !valid_utf8(self@) ==> (r matches Err(e) && e == Error::Utf8),
    {
        self.visible_len_unicode()
    }

    /// The character-wise visible length: decodes the contents, then counts
    /// every character outside an escape span at its UTF-8 byte length.
    pub fn visible_len_unicode(&self) -> (r: Result<usize, Error>)
        ensures
            valid_utf8(self@) ==> (r matches Ok(n) && n == vlen_from(decode_utf8(self@), false)),
            !valid_utf8(self@) ==> (r matches Err(e) && e == Error::Utf8),
    {
        let s = bm_slice(&self.data);
        let total = s.len();
        match try_decode(s) {
            None => Err(Error::Utf8),
            Some(cs) => {
                proof {
                    decode_utf8_encode_utf8(self@);
                }
                let n = cs.len();
                let mut count: usize = 0;
                let mut in_esc: bool = false;
                let mut i: usize = 0;
                while i < n
                    invariant
                        n == cs.len(),
                        cs@ == decode_utf8(self@),
                        encode_utf8(cs@) == self@,
                        total == self@.len(),
                        i <= n,
                        count == vlen_from(cs@.take(i as int), false),
                        in_esc == crate::ansi::esc_after(cs@.take(i as int), false),
                        count <= total,
                    decreases n - i,
                {
                    let c = cs[i];
                    proof {
                        assert(cs@.take(i + 1 as int).drop_last() =~= cs@.take(i as int));
                        assert(cs@.take(i + 1 as int).last() == c);
                        lemma_vlen_le_encode(cs@.take(i + 1 as int), false);
                        lemma_encode_take_le(cs@, i + 1 as int);
                    }
                    if c == MARKER {
                        in_esc = true;
                    } else if in_esc {
                        if crate::ansi::is_terminator(c) {
                            in_esc = false;
                        }
                    } else {
                        count = count + char_width_exec(c);
                    }
                    i = i + 1;
                }
                proof {
                    assert(cs@.take(n as int) =~= cs@);
                }
                Ok(count)
            },
        }
    }

    /// The byte-wise visible length: scans the raw bytes without decoding,
    /// counting each byte outside an escape span at the width of the
    /// character its value names. Meant for ASCII contents, where it agrees
    /// with [`Buffer::visible_len_unicode`]; it never fails.
    pub fn visible_len_ascii(&self) -> (r: Result<usize, Error>)
        requires
            self@.len() <= usize::MAX / 2,
        ensures
            r matches Ok(n) && n == ascii_vlen_from(self@, false),
    {
        let s = bm_slice(&self.data);
        let n = s.len();
        let mut count: usize = 0;
        let mut in_esc: bool = false;
        let mut i: usize = 0;
        while i < n
            invariant
                n == s@.len(),
                s@ == self@,
                n <= usize::MAX / 2,
                i <= n,
                count == ascii_vlen_from(s@.take(i as int), false),
                in_esc == ascii_esc_after(s@.take(i as int), false),
                count <= 2 * i,
            decreases n - i,
        {
            let b = s[i];
            proof {
                assert(s@.take(i + 1 as int).drop_last() =~= s@.take(i as int));
                assert(s@.take(i + 1 as int).last() == b);
            }
            if b == 0x1b {
                in_esc = true;
            } else if in_esc {
                if (0x40 <= b && b <= 0x5a) || (0x61 <= b && b <= 0x7a) {
                    in_esc = false;
                }
            } else {
                if b < 0x80 {
                    count = count + 1;
                } else {
                    count = count + 2;
                }
            }
            i = i + 1;
        }
        proof {
            assert(s@.take(n as int) =~= s@);
        }
        Ok(count)
    }

    /// The contents as a string, if they are valid UTF-8.
    pub fn to_str(&self) -> (r: Result<String, Error>)
        ensures
            valid_utf8(self@) ==> (r matches Ok(s) && s@ == decode_utf8(self@)),
            !valid_utf8(self@) ==> (r matches Err(e) && e == Error::Utf8),
    {
        match try_decode(bm_slice(&self.data)) {
            Some(cs) => Ok(string_from_chars(&cs)),
            None => Err(Error::Utf8),
        }
    }

    /// The contents as an owned string, if they are valid UTF-8.
    pub fn to_string(&self) -> (r: Result<String, Error>)
        ensures
            valid_utf8(self@) ==> (r matches Ok(s) && s@ == decode_utf8(self@)),
            !valid_utf8(self@) ==> (r matches Err(e) && e == Error::Utf8),
    {
        self.to_str()
    }

    /// Consumes the buffer and returns the underlying [`BytesMut`].
    pub fn into_bytes(self) -> (r: BytesMut)
        ensures
            bm_bytes(r) == self@,
    {
        self.data
    }

    /// Consumes the buffer and returns its raw bytes.
    pub fn into_vec(self) -> (r: Vec<u8>)
        ensures
            r@ == self@,
    {
        slice_to_vec(bm_slice(&self.data))
    }

    /// Consumes the buffer and returns its contents as a string, if they are
    /// valid UTF-8.
    pub fn into_string(self) -> (r: Result<String, Error>)
        ensures
            valid_utf8(self@) ==> (r matches Ok(s) && s@ == decode_utf8(self@)),
            !valid_utf8(self@) ==> (r matches Err(e) && e == Error::Utf8),
    {
        self.to_str()
    }

    /// True when every byte held is ASCII.
    pub fn is_ascii(&self) -> (r: bool)
        ensures
            r == (forall|i: int| 0 <= i < self@.len() ==> self@[i] < 0x80),
    {
        let s = bm_slice(&self.data);
        let n = s.len();
        let mut i: usize = 0;
        while i < n
            invariant
                n == s@.len(),
                s@ == self@,
                i <= n,
                forall|j: int| 0 <= j < i ==> self@[j] < 0x80,
            decreases n - i,
        {
            if s[i] >= 0x80 {
                return false;
            }
            i = i + 1;
        }
        true
    }

    /// True when the buffer holds nothing.
    pub fn is_empty(&self) -> (r: bool)
        ensures
            r == (self@.len() == 0),
    {
        self.len() == 0
    }

    /// The number of bytes held.
    pub fn len(&self) -> (r: usize)
        ensures
            r == self@.len(),
    {
        bm_len(&self.data)
    }

    /// The capacity of the underlying buffer. How much room the allocator
    /// gave is not modelled, so nothing is claimed of the value.
    pub fn capacity(&self) -> usize {
        bm_capacity(&self.data)
    }

    /// The contents cut down to at most `len` visible units, as a string:
    /// the longest prefix — escape spans included, counted at width zero —
    /// whose visible length does not exceed `len`. The buffer itself is
    /// left as it was. Fails exactly when the contents are not valid UTF-8.
    pub fn truncate_visible(&mut self, len: usize) -> (r: Result<String, Error>)
        ensures
            final(self)@ == old(self)@,
            valid_utf8(old(self)@) ==> (r matches Ok(s) && s@ == vis_cut(
                decode_utf8(old(self)@),
                false,
                0,
                len as nat,
            )),
            !valid_utf8(old(self)@) ==> (r matches Err(e) && e == Error::Utf8),
    {
        let s = bm_slice(&self.data);
        match try_decode(s) {
            None => Err(Error::Utf8),
            Some(cs) => {
                let ghost target = vis_cut(cs@, false, 0, len as nat);
                let n = cs.len();
                let mut out: Vec<char> = Vec::new();
                let mut i: usize = 0;
                let mut count: usize = 0;
                let mut in_esc: bool = false;
                let mut stop: bool = false;
                proof {
                    decode_utf8_encode_utf8(self@);
                    assert(cs@.skip(0) =~= cs@);
                    assert(cs@.take(0) + target =~= target);
                }
                while i < n && !stop
                    invariant
                        n == cs.len(),
                        i <= n,
                        out@ == cs@.take(i as int),
                        encode_utf8(cs@) == old(self)@,
                        count <= len,
                        !stop ==> target == cs@.take(i as int) + vis_cut(
                            cs@.skip(i as int),
                            in_esc,
                            count as nat,
                            len as nat,
                        ),
                        stop ==> target == cs@.take(i as int),
                    decreases n - i, if stop { 0int } else { 1int },
                {
                    let c = cs[i];
                    proof {
                        let rest = cs@.skip(i as int);
                        assert(rest[0] == c);
                        assert(rest.drop_first() =~= cs@.skip(i + 1 as int));
                        assert(cs@.take(i + 1 as int) =~= cs@.take(i as int).push(c));
                    }
                    if in_esc || c == MARKER {
                        out.push(c);
                        if in_esc {
                            if crate::ansi::is_terminator(c) {
                                in_esc = false;
                            }
                        } else {
                            in_esc = true;
                        }
                        proof {
                            assert(cs@.take(i as int) + (seq![c] + vis_cut(
                                cs@.skip(i + 1 as int),
                                in_esc,
                                count as nat,
                                len as nat,
                            )) =~= cs@.take(i + 1 as int) + vis_cut(
                                cs@.skip(i + 1 as int),
                                in_esc,
                                count as nat,
                                len as nat,
                            ));
                        }
                        i = i + 1;
                    } else {
                        let w = char_width_exec(c);
                        if w > len - count {
                            stop = true;
                        } else {
                            out.push(c);
                            count = count + w;
                            proof {
                                assert(cs@.take(i as int) + (seq![c] + vis_cut(
                                    cs@.skip(i + 1 as int),
                                    in_esc,
                                    count as nat,
                                    len as nat,
                                )) =~= cs@.take(i + 1 as int) + vis_cut(
                                    cs@.skip(i + 1 as int),
                                    in_esc,
                                    count as nat,
                                    len as nat,
                                ));
                            }
                            i = i + 1;
                        }
                    }
                }
                proof {
                    if !stop {
                        assert(cs@.skip(n as int) =~= Seq::<char>::empty());
                        assert(cs@.take(n as int) + Seq::<char>::empty() =~= cs@.take(n as int));
                    }
                    assert(target == out@);
                }
                Ok(string_from_chars(&out))
            },
        }
    }
}

/// The prefix kept when cutting to `budget` visible units from state
/// `(e, taken)`: characters in escape spans are kept at width zero, and the
/// walk stops before the first visible character that would push the count
/// past the budget.
pub open spec fn vis_cut(s: Seq<char>, e: bool, taken: nat, budget: nat) -> Seq<char>
    decreases s.len(),
{
    if s.len() == 0 {
        Seq::empty()
    } else {
        let c = s[0];
        if crate::ansi::char_yields(e, c) {
            if taken + crate::ansi::char_width(c) > budget {
                Seq::empty()
            } else {
                seq![c] + vis_cut(
                    s.drop_first(),
                    e,
                    taken + crate::ansi::char_width(c),
                    budget,
                )
            }
        } else {
            seq![c] + vis_cut(s.drop_first(), crate::ansi::esc_step(e, c), taken, budget)
        }
    }
}

impl Default for Buffer {
    /// An empty buffer.
    fn default() -> (r: Buffer)
        ensures
            r@ == Seq::<u8>::empty(),
    {
        Buffer::new()
    }
}

impl From<&str> for Buffer {
    /// A buffer holding the UTF-8 bytes of the given string. (Nothing is
    /// claimed of the result in specifications; build with
    /// [`Buffer::push_str`] where a contract is needed.)
    fn from(src: &str) -> Buffer {
        let mut b = Buffer::new();
        b.push_str(src);
        b
    }
}

impl vstd::std_specs::convert::FromSpecImpl<&str> for Buffer {
    open spec fn obeys_from_spec() -> bool {
        false
    }

    open spec fn from_spec(src: &str) -> Buffer {
        arbitrary()
    }
}

impl From<String> for Buffer {
    /// A buffer holding the UTF-8 bytes of the given string. (Nothing is
    /// claimed of the result in specifications; build with
    /// [`Buffer::push_str`] where a contract is needed.)
    fn from(src: String) -> Buffer {
        let mut b = Buffer::new();
        b.push_str(src.as_str());
        b
    }
}

impl vstd::std_specs::convert::FromSpecImpl<String> for Buffer {
    open spec fn obeys_from_spec() -> bool {
        false
    }

    open spec fn from_spec(src: String) -> Buffer {
        arbitrary()
    }
}

impl From<Vec<u8>> for Buffer {
    /// A buffer holding a copy of the given bytes. (Nothing is claimed of
    /// the result in specifications.)
    fn from(src: Vec<u8>) -> Buffer {
        Buffer { data: bm_from_slice(src.as_slice()) }
    }
}

impl vstd::std_specs::convert::FromSpecImpl<Vec<u8>> for Buffer {
    open spec fn obeys_from_spec() -> bool {
        false
    }

    open spec fn from_spec(src: Vec<u8>) -> Buffer {
        arbitrary()
    }
}

} // verus!
