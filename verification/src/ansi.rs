//! Escape-sequence classification and visible-width measurement.
//!
//! An *escape span* is a maximal run of characters that begins with the
//! marker `U+001B` (ESC) and ends at the first terminator character (a
//! character whose code point lies in `[0x40, 0x5A]` or `[0x61, 0x7A]`).
//! Characters inside an escape span take no room on the screen, so every
//! width measure here skips them.
//!
//! Two measures are offered: a plain one ([`visible_len_of`]), which adds the
//! UTF-8 byte length of every visible character, and a column-tracking one
//! ([`visible_width_of`]), which additionally expands tabs to the next
//! multiple-of-8 stop and resets the column on a newline.

use vstd::prelude::*;
use vstd::utf8::encode_scalar;

use crate::text::string_from_chars;

pub mod buffer;
pub mod writer;

verus! {

/// Marker for the start of an ANSI escape sequence.
pub const MARKER: char = '\u{1b}';

/// True when `c` is the escape marker `U+001B`.
pub open spec fn is_marker_char(c: char) -> bool {
    c == '\u{1b}'
}

/// True when `c` terminates an escape span: its code point lies in
/// `[0x40, 0x5A]` or `[0x61, 0x7A]`.
pub open spec fn is_terminator_char(c: char) -> bool {
    (0x40 <= c as u32 && c as u32 <= 0x5a) || (0x61 <= c as u32 && c as u32 <= 0x7a)
}

/// The scanner state (inside an escape span or not) after reading one more
/// character `c` from state `in_esc`.
pub open spec fn esc_step(in_esc: bool, c: char) -> bool {
    if is_marker_char(c) {
        true
    } else if in_esc {
        !is_terminator_char(c)
    } else {
        false
    }
}

/// The scanner state after reading all of `s`, starting from state `e0`.
pub open spec fn esc_after(s: Seq<char>, e0: bool) -> bool
    decreases s.len(),
{
    if s.len() == 0 {
        e0
    } else {
        esc_step(esc_after(s.drop_last(), e0), s.last())
    }
}

/// True when a character read in state `in_esc` is visible: it is neither the
/// marker nor part of an open escape span.
pub open spec fn char_yields(in_esc: bool, c: char) -> bool {
    !is_marker_char(c) && !in_esc
}

/// The visible characters of `s`, scanned from state `e0`: every character
/// outside an escape span, in order. An unterminated trailing span yields
/// nothing.
pub open spec fn visible_from(s: Seq<char>, e0: bool) -> Seq<char>
    decreases s.len(),
{
    if s.len() == 0 {
        Seq::empty()
    } else {
        let pre = visible_from(s.drop_last(), e0);
        if char_yields(esc_after(s.drop_last(), e0), s.last()) {
            pre.push(s.last())
        } else {
            pre
        }
    }
}

/// The width of one character: the length of its UTF-8 encoding, between 1
/// and 4. Display cells are not modelled; a wide CJK glyph still counts its
/// encoded length.
pub open spec fn char_width(c: char) -> nat {
    encode_scalar(c as u32).len()
}

/// The plain visible length of `s` scanned from state `e0`: the sum of
/// [`char_width`] over its visible characters. Tabs and newlines receive no
/// special treatment here.
pub open spec fn vlen_from(s: Seq<char>, e0: bool) -> nat
    decreases s.len(),
{
    if s.len() == 0 {
        0
    } else {
        vlen_from(s.drop_last(), e0) + if char_yields(
            esc_after(s.drop_last(), e0),
            s.last(),
        ) {
            char_width(s.last())
        } else {
            0
        }
    }
}

/// The plain visible length of `s`, scanned from the normal state.
pub open spec fn visible_len_of(s: Seq<char>) -> nat {
    vlen_from(s, false)
}

/// One step of the column counter: a tab advances to the next multiple of 8,
/// a newline resets to 0, and any other character adds its width.
pub open spec fn col_step(col: nat, c: char) -> nat {
    if c == '\t' {
        (col + 8 - col % 8) as nat
    } else if c == '\n' {
        0
    } else {
        col + char_width(c)
    }
}

/// The column after scanning `s` from state `e0` and column `col0`.
/// Characters inside escape spans leave the column unchanged.
pub open spec fn col_from(s: Seq<char>, e0: bool, col0: nat) -> nat
    decreases s.len(),
{
    if s.len() == 0 {
        col0
    } else {
        let e = esc_after(s.drop_last(), e0);
        let col = col_from(s.drop_last(), e0, col0);
        if char_yields(e, s.last()) {
            col_step(col, s.last())
        } else {
            col
        }
    }
}

/// The column after scanning all of `s` from a fresh state.
pub open spec fn visible_width_of(s: Seq<char>) -> nat {
    col_from(s, false, 0)
}

/// Checks whether the given character terminates an escape span, that is,
/// whether its code point lies in `[0x40, 0x5A]` or `[0x61, 0x7A]`.
pub fn is_terminator(ch: char) -> (r: bool)
    ensures
        r == is_terminator_char(ch),
{
    let u = ch as u32;
    (0x40 <= u && u <= 0x5a) || (0x61 <= u && u <= 0x7a)
}

/// The width of one character: the length of its UTF-8 encoding.
pub fn char_width_exec(c: char) -> (w: usize)
    ensures
        w == char_width(c),
{
    proof {
        vstd::utf8::char_is_scalar(c);
    }
    let u = c as u32;
    if u < 0x80 {
        1
    } else if u < 0x800 {
        2
    } else if u < 0x10000 {
        3
    } else {
        4
    }
}

/// The column reached after a column-aware scan of `input`: escape spans are
/// skipped, a visible character advances the column by its UTF-8 byte
/// length, a tab advances it to the next multiple of 8, and a newline resets
/// it to 0.
pub fn visible_width(input: &str) -> (width: usize)
    requires
        8 * input@.len() + 8 <= usize::MAX,
    ensures
        width == visible_width_of(input@),
{
    let cs = crate::text::chars_vec(input);
    let mut col: usize = 0;
    let mut in_esc: bool = false;
    let n = cs.len();
    let mut i: usize = 0;
    while i < n
        invariant
            n == cs.len(),
            cs@ == input@,
            i <= n,
            8 * n + 8 <= usize::MAX,
            col == col_from(cs@.take(i as int), false, 0),
            in_esc == esc_after(cs@.take(i as int), false),
            col <= 8 * i,
        decreases n - i,
    {
        let c = cs[i];
        proof {
            assert(cs@.take(i + 1 as int).drop_last() =~= cs@.take(i as int));
            assert(cs@.take(i + 1 as int).last() == c);
        }
        if c == MARKER {
            in_esc = true;
        } else if in_esc {
            if is_terminator(c) {
                in_esc = false;
            }
        } else {
            if c == '\t' {
                col = col + (8 - col % 8);
            } else if c == '\n' {
                col = 0;
            } else {
                col = col + char_width_exec(c);
            }
        }
        i = i + 1;
    }
    proof {
        assert(cs@.take(n as int) =~= cs@);
    }
    col
}

/// Removes every escape span from `input`, keeping the visible characters.
/// A trailing unterminated span is dropped entirely.
pub fn strip_ansi(input: &str) -> (r: String)
    ensures
        r@ == visible_from(input@, false),
{
    let cs = crate::text::chars_vec(input);
    let mut out: Vec<char> = Vec::new();
    let mut in_esc: bool = false;
    let n = cs.len();
    let mut i: usize = 0;
    while i < n
        invariant
            n == cs.len(),
            cs@ == input@,
            i <= n,
            out@ == visible_from(cs@.take(i as int), false),
            in_esc == esc_after(cs@.take(i as int), false),
        decreases n - i,
    {
        let c = cs[i];
        proof {
            assert(cs@.take(i + 1 as int).drop_last() =~= cs@.take(i as int));
            assert(cs@.take(i + 1 as int).last() == c);
        }
        if c == MARKER {
            in_esc = true;
        } else if in_esc {
            if is_terminator(c) {
                in_esc = false;
            }
        } else {
            out.push(c);
        }
        i = i + 1;
    }
    proof {
        assert(cs@.take(n as int) =~= cs@);
    }
    string_from_chars(&out)
}

/// The visible length never exceeds the encoded length of the whole text.
pub proof fn lemma_vlen_le_encode(s: Seq<char>, e0: bool)
    ensures
        vlen_from(s, e0) <= vstd::utf8::encode_utf8(s).len(),
    decreases s.len(),
{
    if s.len() == 0 {
    } else {
        lemma_vlen_le_encode(s.drop_last(), e0);
        assert(s.drop_last().push(s.last()) =~= s);
        crate::text::lemma_encode_push(s.drop_last(), s.last());
    }
}

/// Encoding a prefix gives at most the bytes of encoding the whole.
pub proof fn lemma_encode_take_le(s: Seq<char>, j: int)
    requires
        0 <= j <= s.len(),
    ensures
        vstd::utf8::encode_utf8(s.take(j)).len() <= vstd::utf8::encode_utf8(s).len(),
{
    crate::text::lemma_encode_concat(s.take(j), s.skip(j));
    assert(s.take(j) + s.skip(j) =~= s);
}

/// Scanning a concatenation threads the state: the state after `a + b` is
/// the state after `b`, started from the state after `a`.
pub proof fn lemma_esc_concat(a: Seq<char>, b: Seq<char>, e0: bool)
    ensures
        esc_after(a + b, e0) == esc_after(b, esc_after(a, e0)),
    decreases b.len(),
{
    if b.len() == 0 {
        assert(a + b =~= a);
    } else {
        assert((a + b).drop_last() =~= a + b.drop_last());
        lemma_esc_concat(a, b.drop_last(), e0);
    }
}

/// The visible characters of a concatenation: those of `a`, then those of
/// `b` scanned from the state `a` leaves behind.
pub proof fn lemma_visible_concat(a: Seq<char>, b: Seq<char>, e0: bool)
    ensures
        visible_from(a + b, e0) == visible_from(a, e0) + visible_from(b, esc_after(a, e0)),
    decreases b.len(),
{
    if b.len() == 0 {
        assert(a + b =~= a);
        assert(visible_from(a, e0) + visible_from(b, esc_after(a, e0)) =~= visible_from(a, e0));
    } else {
        assert((a + b).drop_last() =~= a + b.drop_last());
        lemma_visible_concat(a, b.drop_last(), e0);
        lemma_esc_concat(a, b.drop_last(), e0);
        if char_yields(esc_after(a + b.drop_last(), e0), b.last()) {
            assert(visible_from(a + b, e0) =~= visible_from(a, e0) + visible_from(
                b,
                esc_after(a, e0),
            ));
        }
    }
}

/// The plain visible length of a concatenation adds up the same way.
pub proof fn lemma_vlen_concat(a: Seq<char>, b: Seq<char>, e0: bool)
    ensures
        vlen_from(a + b, e0) == vlen_from(a, e0) + vlen_from(b, esc_after(a, e0)),
    decreases b.len(),
{
    if b.len() == 0 {
        assert(a + b =~= a);
    } else {
        assert((a + b).drop_last() =~= a + b.drop_last());
        lemma_vlen_concat(a, b.drop_last(), e0);
        lemma_esc_concat(a, b.drop_last(), e0);
    }
}

/// The column after a concatenation threads the column through both parts.
pub proof fn lemma_col_concat(a: Seq<char>, b: Seq<char>, e0: bool, col0: nat)
    ensures
        col_from(a + b, e0, col0) == col_from(b, esc_after(a, e0), col_from(a, e0, col0)),
    decreases b.len(),
{
    if b.len() == 0 {
        assert(a + b =~= a);
    } else {
        assert((a + b).drop_last() =~= a + b.drop_last());
        lemma_col_concat(a, b.drop_last(), e0, col0);
        lemma_esc_concat(a, b.drop_last(), e0);
    }
}

/// A stretch that yields no visible characters contributes nothing to any
/// measure and leaves the column where it was.
pub proof fn lemma_invisible_contributes_nothing(s: Seq<char>, e0: bool, col0: nat)
    requires
        visible_from(s, e0).len() == 0,
    ensures
        vlen_from(s, e0) == 0,
        col_from(s, e0, col0) == col0,
    decreases s.len(),
{
    if s.len() == 0 {
    } else {
        assert(!char_yields(esc_after(s.drop_last(), e0), s.last()));
        lemma_invisible_contributes_nothing(s.drop_last(), e0, col0);
    }
}

/// A marker-free stretch scanned from the normal state is entirely visible.
pub proof fn lemma_plain_text_visible(s: Seq<char>)
    requires
        forall|i: int| 0 <= i < s.len() ==> !is_marker_char(#[trigger] s[i]),
    ensures
        !esc_after(s, false),
        visible_from(s, false) == s,
    decreases s.len(),
{
    if s.len() == 0 {
        assert(visible_from(s, false) =~= s);
    } else {
        assert(forall|i: int|
            0 <= i < s.drop_last().len() ==> !is_marker_char(#[trigger] s.drop_last()[i]));
        lemma_plain_text_visible(s.drop_last());
        assert(s.last() == s[s.len() - 1]);
        assert(visible_from(s, false) =~= s);
    }
}

/// Width/length duality: wrapping plain text in complete escape spans does
/// not change what is visible, nor its plain visible length. `pre` and
/// `post` must consist of complete spans only (they yield nothing and leave
/// the scanner in the normal state), and the text itself must contain no
/// marker.
pub proof fn lemma_width_duality(pre: Seq<char>, s: Seq<char>, post: Seq<char>)
    requires
        visible_from(pre, false).len() == 0,
        !esc_after(pre, false),
        forall|i: int| 0 <= i < s.len() ==> !is_marker_char(#[trigger] s[i]),
        visible_from(post, false).len() == 0,
    ensures
        visible_from(pre + s + post, false) == s,
        vlen_from(pre + s + post, false) == vlen_from(s, false),
{
    lemma_plain_text_visible(s);
    lemma_visible_concat(pre, s, false);
    lemma_esc_concat(pre, s, false);
    lemma_visible_concat(pre + s, post, false);
    lemma_esc_concat(pre, s, false);
    assert(esc_after(pre + s, false) == false) by {
        lemma_esc_concat(pre, s, false);
    }
    assert(visible_from(pre + s + post, false) =~= s);
    lemma_vlen_concat(pre, s, false);
    lemma_vlen_concat(pre + s, post, false);
    lemma_invisible_contributes_nothing(pre, false, 0);
    lemma_invisible_contributes_nothing(post, false, 0);
}

/// A trailing fragment that starts with the marker and never reaches a
/// terminator yields nothing, from any starting state.
pub proof fn lemma_unterminated_invisible(t: Seq<char>, e0: bool)
    requires
        t.len() > 0,
        is_marker_char(t[0]),
        forall|i: int| 1 <= i < t.len() ==> !is_terminator_char(#[trigger] t[i]),
    ensures
        visible_from(t, e0).len() == 0,
        esc_after(t, e0),
    decreases t.len(),
{
    if t.len() == 1 {
        reveal_with_fuel(visible_from, 2);
        reveal_with_fuel(esc_after, 2);
        assert(t.drop_last().len() == 0);
        assert(is_marker_char(t.last()));
        assert(visible_from(t, e0).len() == 0);
    } else {
        assert(t.drop_last()[0] == t[0]);
        assert(forall|i: int|
            1 <= i < t.drop_last().len() ==> !is_terminator_char(#[trigger] t.drop_last()[i]));
        lemma_unterminated_invisible(t.drop_last(), e0);
        assert(t.last() == t[t.len() - 1]);
        assert(!is_terminator_char(t.last()));
        assert(!char_yields(esc_after(t.drop_last(), e0), t.last()));
    }
}

/// Reading one character from the front of a column scan: the state steps,
/// and the column advances exactly when the character is visible.
pub proof fn lemma_col_unfold_first(s: Seq<char>, e: bool, col0: nat)
    requires
        s.len() > 0,
    ensures
        esc_after(s, e) == esc_after(s.drop_first(), esc_step(e, s[0])),
        col_from(s, e, col0) == col_from(
            s.drop_first(),
            esc_step(e, s[0]),
            if char_yields(e, s[0]) {
                col_step(col0, s[0])
            } else {
                col0
            },
        ),
{
    let h = seq![s[0]];
    assert(h + s.drop_first() =~= s);
    lemma_esc_concat(h, s.drop_first(), e);
    lemma_col_concat(h, s.drop_first(), e, col0);
    reveal_with_fuel(esc_after, 2);
    reveal_with_fuel(col_from, 2);
    assert(h.drop_last() =~= Seq::<char>::empty());
    assert(esc_after(h, e) == esc_step(e, s[0]));
}

/// Characters that are neither tabs nor newlines advance the column by a
/// fixed amount, so the scan is additive in the starting column.
pub proof fn lemma_col_additive(t: Seq<char>, e: bool, col0: nat)
    requires
        forall|i: int| 0 <= i < t.len() ==> t[i] != '\t' && #[trigger] t[i] != '\n',
    ensures
        col_from(t, e, col0) == col0 + col_from(t, e, 0),
    decreases t.len(),
{
    if t.len() > 0 {
        assert(forall|i: int|
            0 <= i < t.drop_last().len() ==> t.drop_last()[i] != '\t' && #[trigger] t.drop_last()[i]
                != '\n');
        lemma_col_additive(t.drop_last(), e, col0);
        assert(t.last() == t[t.len() - 1]);
    }
}

/// A complete escape span — a marker, span characters, and a final
/// terminator — yields nothing, leaves the scanner in the normal state, and
/// leaves the column where it was.
pub proof fn lemma_closed_span_neutral(span: Seq<char>, e0: bool, col0: nat)
    requires
        span.len() >= 2,
        is_marker_char(span[0]),
        forall|i: int| 1 <= i < span.len() - 1 ==> !is_terminator_char(#[trigger] span[i]),
        is_terminator_char(span.last()),
    ensures
        visible_from(span, e0).len() == 0,
        !esc_after(span, e0),
        col_from(span, e0, col0) == col0,
        vlen_from(span, e0) == 0,
{
    let p = span.drop_last();
    assert(p[0] == span[0]);
    assert(forall|i: int| 1 <= i < p.len() ==> !is_terminator_char(#[trigger] p[i]));
    lemma_unterminated_invisible(p, e0);
    assert(!char_yields(esc_after(p, e0), span.last()));
    lemma_invisible_contributes_nothing(span, e0, col0);
}

/// Malformed trailing escape: an input ending with an unterminated span
/// measures exactly like the input without it — the fragment contributes 0
/// to every width measure.
pub proof fn lemma_unterminated_tail(s: Seq<char>, t: Seq<char>)
    requires
        t.len() > 0,
        is_marker_char(t[0]),
        forall|i: int| 1 <= i < t.len() ==> !is_terminator_char(#[trigger] t[i]),
    ensures
        visible_from(s + t, false) == visible_from(s, false),
        vlen_from(s + t, false) == vlen_from(s, false),
        col_from(s + t, false, 0) == col_from(s, false, 0),
{
    let e = esc_after(s, false);
    lemma_unterminated_invisible(t, e);
    lemma_visible_concat(s, t, false);
    assert(visible_from(s + t, false) =~= visible_from(s, false));
    lemma_vlen_concat(s, t, false);
    lemma_col_concat(s, t, false, 0);
    lemma_invisible_contributes_nothing(t, e, col_from(s, false, 0));
}

} // verus!
