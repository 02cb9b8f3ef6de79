//! Truncating styled text to a target visible width.
//!
//! The text is cut after the last visible character that still fits the
//! width budget left once the tail marker (by default `"..."`) is accounted
//! for; styling is kept intact up to the cut, any open style is closed with
//! a reset, and the tail is appended unstyled. Input that already fits is
//! returned unchanged, and a width too small for the tail yields the tail
//! alone.

use vstd::prelude::*;
use vstd::utf8::encode_utf8;

use crate::ansi::buffer::Buffer;
use crate::ansi::writer::{
    reset_model, reset_seq, wfold, wstep, Writer as AnsiWriter, WriterModel,
};
use crate::ansi::{
    char_width_exec, char_yields, col_step, esc_step, is_marker_char, is_terminator,
    visible_width, visible_width_of, MARKER,
};
use crate::bytebuf::bm_new;
use crate::error::Error;
use crate::text::chars_vec;

verus! {

/// The prefix of `s` kept by the truncation walk: scanning with the column
/// rules from state `(e, col)`, characters are kept — escape spans wholly —
/// until the first visible character that would push the column past
/// `budget`.
pub open spec fn cut_from(s: Seq<char>, e: bool, col: nat, budget: nat) -> Seq<char>
    decreases s.len(),
{
    if s.len() == 0 {
        Seq::empty()
    } else {
        let c = s[0];
        if char_yields(e, c) {
            if col_step(col, c) > budget {
                Seq::empty()
            } else {
                seq![c] + cut_from(s.drop_first(), e, col_step(col, c), budget)
            }
        } else {
            seq![c] + cut_from(s.drop_first(), esc_step(e, c), col, budget)
        }
    }
}

/// What truncating `s` to `w` columns with the given tail produces. A width
/// smaller than the tail's own yields the tail alone; input that already
/// fits passes unchanged; otherwise the kept prefix is passed through a
/// style-tracking writer (so an unterminated trailing span is dropped), an
/// open style is closed with a reset, and the tail follows unstyled.
pub open spec fn truncate_spec(s: Seq<char>, w: nat, tail: Seq<char>) -> Seq<char> {
    let tw = visible_width_of(tail);
    if w < tw {
        tail
    } else if visible_width_of(s) <= w {
        s
    } else {
        let m = reset_model(wfold(WriterModel::init(), cut_from(s, false, 0, (w - tw) as nat)));
        m.out + tail
    }
}

/// Truncates `input` to `width` visible columns, appending `ending` when a
/// cut was needed.
fn truncate_core(input: &str, width: usize, ending: &str) -> (r: String)
    requires
        8 * input@.len() + 8 <= usize::MAX,
        8 * ending@.len() + 8 <= usize::MAX,
    ensures
        r@ == truncate_spec(input@, width as nat, ending@),
{
    let tw = visible_width(ending);
    if width < tw {
        return ending.to_owned();
    }
    let vw = visible_width(input);
    if vw <= width {
        return input.to_owned();
    }
    let budget = width - tw;
    let cs = chars_vec(input);
    let n = cs.len();
    let mut wtr = AnsiWriter::new(bm_new());
    proof {
        assert(vstd::utf8::valid_utf8(Seq::<u8>::empty()));
        assert(vstd::utf8::decode_utf8(Seq::<u8>::empty()) =~= Seq::<char>::empty());
    }
    let ghost kept_whole = cut_from(cs@, false, 0, budget as nat);
    proof {
        assert(cs@.skip(0) =~= cs@);
        assert(cs@.take(0) + kept_whole =~= kept_whole);
        assert(wfold(WriterModel::init(), cs@.take(0)) == WriterModel::init());
    }
    let mut i: usize = 0;
    let mut col: usize = 0;
    let mut in_esc: bool = false;
    let mut stop: bool = false;
    while i < n && !stop
        invariant
            n == cs.len(),
            cs@ == input@,
            i <= n,
            8 * n + 8 <= usize::MAX,
            budget <= usize::MAX,
            wtr.wf(),
            wtr@ == wfold(WriterModel::init(), cs@.take(i as int)),
            in_esc == wtr@.in_escape,
            col <= 8 * i,
            !stop ==> kept_whole == cs@.take(i as int) + cut_from(
                cs@.skip(i as int),
                in_esc,
                col as nat,
                budget as nat,
            ),
            stop ==> kept_whole == cs@.take(i as int),
        decreases n - i, if stop { 0int } else { 1int },
    {
        let c = cs[i];
        proof {
            let rest = cs@.skip(i as int);
            assert(rest[0] == c);
            assert(rest.drop_first() =~= cs@.skip(i + 1 as int));
            assert(cs@.take(i + 1 as int).drop_last() =~= cs@.take(i as int));
            assert(cs@.take(i + 1 as int).last() == c);
        }
        if in_esc || c == MARKER {
            wtr.put_char(c);
            if in_esc {
                if is_terminator(c) {
                    in_esc = false;
                }
            } else {
                in_esc = true;
            }
            proof {
                assert(cs@.take(i as int) + (seq![c] + cut_from(
                    cs@.skip(i + 1 as int),
                    in_esc,
                    col as nat,
                    budget as nat,
                )) =~= cs@.take(i + 1 as int) + cut_from(
                    cs@.skip(i + 1 as int),
                    in_esc,
                    col as nat,
                    budget as nat,
                ));
            }
            i = i + 1;
        } else {
            let ns: usize = if c == '\t' {
                col + (8 - col % 8)
            } else if c == '\n' {
                0
            } else {
                col + char_width_exec(c)
            };
            proof {
                assert(ns as nat == col_step(col as nat, c));
            }
            if ns > budget {
                stop = true;
            } else {
                wtr.put_char(c);
                col = ns;
                proof {
                    assert(cs@.take(i as int) + (seq![c] + cut_from(
                        cs@.skip(i + 1 as int),
                        in_esc,
                        col as nat,
                        budget as nat,
                    )) =~= cs@.take(i + 1 as int) + cut_from(
                        cs@.skip(i + 1 as int),
                        in_esc,
                        col as nat,
                        budget as nat,
                    ));
                }
                i = i + 1;
            }
        }
    }
    proof {
        if !stop {
            assert(cs@.skip(n as int) =~= Seq::<char>::empty());
            assert(kept_whole == cs@.take(n as int) + Seq::<char>::empty());
            assert(cs@.take(n as int) + Seq::<char>::empty() =~= cs@.take(n as int));
        }
        assert(kept_whole == cs@.take(i as int));
    }
    let _ = wtr.reset_ansi();
    let mut out = match wtr.into_string() {
        Ok(s) => s,
        Err(_) => {
            proof {
                assert(false);
            }
            vstd::pervasive::unreached()
        },
    };
    out.append(ending);
    proof {
        assert(out@ =~= truncate_spec(input@, width as nat, ending@));
    }
    out
}

/// A writer that truncates what it is given to a target visible width
/// before storing it.
pub struct Writer {
    width: usize,
    tail: String,
    buf: Buffer,
}

impl Writer {
    /// The target width.
    pub closed spec fn target(&self) -> nat {
        self.width as nat
    }

    /// The characters of the tail marker.
    pub closed spec fn tail_view(&self) -> Seq<char> {
        self.tail@
    }

    /// The bytes stored so far.
    pub closed spec fn contents(&self) -> Seq<u8> {
        self.buf@
    }

    /// Well-formed: the stored bytes are text (valid UTF-8). Every
    /// constructor establishes this and every write preserves it, since
    /// only whole strings are appended.
    pub closed spec fn wf(&self) -> bool {
        vstd::utf8::valid_utf8(self.buf@)
    }

    /// Creates a truncating writer with the default `"..."` tail.
    pub fn new(width: usize) -> (r: Writer)
        ensures
            r.wf(),
            r.target() == width as nat,
            r.tail_view() == "..."@,
            r.contents() == Seq::<u8>::empty(),
    {
        Writer { width, tail: "...".to_owned(), buf: Buffer::new() }
    }

    /// Creates a truncating writer with the given tail marker.
    pub fn with_ending(width: usize, tail: &str) -> (r: Writer)
        ensures
            r.wf(),
            r.target() == width as nat,
            r.tail_view() == tail@,
            r.contents() == Seq::<u8>::empty(),
    {
        Writer { width, tail: tail.to_owned(), buf: Buffer::new() }
    }

    /// Truncates the given text and appends the result to the stored
    /// output. Returns the number of bytes appended.
    pub fn write_str(&mut self, s: &str) -> (r: Result<usize, Error>)
        requires
            old(self).wf(),
            8 * s@.len() + 8 <= usize::MAX,
            8 * old(self).tail_view().len() + 8 <= usize::MAX,
        ensures
            final(self).wf(),
            final(self).target() == old(self).target(),
            final(self).tail_view() == old(self).tail_view(),
            final(self).contents() == old(self).contents() + encode_utf8(
                truncate_spec(s@, old(self).target(), old(self).tail_view()),
            ),
            r matches Ok(n) && n == encode_utf8(
                truncate_spec(s@, old(self).target(), old(self).tail_view()),
            ).len() as usize,
    {
        let t = truncate_core(s, self.width, self.tail.as_str());
        let n = t.as_str().len();
        proof {
            vstd::utf8::encode_utf8_valid_utf8(t@);
            vstd::utf8::valid_utf8_concat(self.buf@, encode_utf8(t@));
        }
        self.buf.push_str(t.as_str());
        Ok(n)
    }

    /// Decodes the given bytes as text, then truncates and stores them as
    /// [`Writer::write_str`] does. Fails exactly when the bytes are not
    /// valid UTF-8.
    pub fn write_bytes(&mut self, bytes: &[u8]) -> (r: Result<usize, Error>)
        requires
            old(self).wf(),
            8 * bytes@.len() + 8 <= usize::MAX,
            8 * old(self).tail_view().len() + 8 <= usize::MAX,
        ensures
            final(self).wf(),
            final(self).target() == old(self).target(),
            final(self).tail_view() == old(self).tail_view(),
            vstd::utf8::valid_utf8(bytes@) ==> ({
                &&& final(self).contents() == old(self).contents() + encode_utf8(
                    truncate_spec(
                        vstd::utf8::decode_utf8(bytes@),
                        old(self).target(),
                        old(self).tail_view(),
                    ),
                )
                &&& r is Ok
            }),
            !vstd::utf8::valid_utf8(bytes@) ==> (r matches Err(e) && e == Error::Utf8
                && final(self).contents() == old(self).contents()),
    {
        match crate::text::try_decode(bytes) {
            None => Err(Error::Utf8),
            Some(cs) => {
                let s = crate::text::string_from_chars(&cs);
                proof {
                    crate::text::lemma_encode_ge_len(cs@);
                    vstd::utf8::decode_utf8_encode_utf8(bytes@);
                }
                self.write_str(s.as_str())
            },
        }
    }

    /// The stored output as a string.
    pub fn to_string(&self) -> (r: Result<String, Error>)
        requires
            self.wf(),
        ensures
            r matches Ok(s) && s@ == vstd::utf8::decode_utf8(self.contents()),
    {
        self.buf.to_str()
    }
}

/// With no newlines and no tabs around, a column scan never moves
/// backwards.
proof fn lemma_col_monotone(s: Seq<char>, e: bool, col0: nat)
    requires
        forall|i: int| 0 <= i < s.len() ==> #[trigger] s[i] != '\n',
    ensures
        crate::ansi::col_from(s, e, col0) >= col0,
    decreases s.len(),
{
    if s.len() > 0 {
        assert(forall|i: int| 0 <= i < s.drop_last().len() ==> #[trigger] s.drop_last()[i] != '\n');
        lemma_col_monotone(s.drop_last(), e, col0);
        assert(s.last() == s[s.len() - 1]);
    }
}

/// On one-column text — no tabs, no newlines, every character one column
/// wide — the truncation walk keeps exactly as many columns as fit the
/// budget.
proof fn lemma_cut_exact(s: Seq<char>, e: bool, col: nat, budget: nat)
    requires
        forall|i: int|
            0 <= i < s.len() ==> (s[i] != '\t' && #[trigger] s[i] != '\n' && crate::ansi::char_width(
                s[i],
            ) == 1),
        col <= budget,
    ensures
        crate::ansi::col_from(cut_from(s, e, col, budget), e, col) == vstd::math::min(
            crate::ansi::col_from(s, e, col) as int,
            budget as int,
        ),
    decreases s.len(),
{
    if s.len() == 0 {
    } else {
        let c = s[0];
        let rest = s.drop_first();
        assert(forall|i: int|
            0 <= i < rest.len() ==> (rest[i] != '\t' && #[trigger] rest[i] != '\n'
                && crate::ansi::char_width(rest[i]) == 1));
        crate::ansi::lemma_col_unfold_first(s, e, col);
        if char_yields(e, c) {
            assert(col_step(col, c) == col + 1);
            if col + 1 > budget {
                assert(cut_from(s, e, col, budget) =~= Seq::<char>::empty());
                assert(forall|i: int| 0 <= i < s.len() ==> #[trigger] s[i] != '\n');
                lemma_col_monotone(rest, esc_step(e, c), col + 1);
                assert(crate::ansi::col_from(s, e, col) >= col + 1);
            } else {
                lemma_cut_exact(rest, e, (col + 1) as nat, budget);
                let kept = cut_from(s, e, col, budget);
                let kept_rest = cut_from(rest, e, (col + 1) as nat, budget);
                assert(kept =~= seq![c] + kept_rest);
                assert(kept[0] == c);
                assert(kept.drop_first() =~= kept_rest);
                crate::ansi::lemma_col_unfold_first(kept, e, col);
                assert(esc_step(e, c) == e);
            }
        } else {
            lemma_cut_exact(rest, esc_step(e, c), col, budget);
            let kept = cut_from(s, e, col, budget);
            let kept_rest = cut_from(rest, esc_step(e, c), col, budget);
            assert(kept =~= seq![c] + kept_rest);
            assert(kept[0] == c);
            assert(kept.drop_first() =~= kept_rest);
            crate::ansi::lemma_col_unfold_first(kept, e, col);
        }
    }
}

/// Truncation boundary: on one-column text (no tabs or newlines, every
/// character one column wide, tab/newline-free tail), the truncated output
/// is exactly `min(visible_width(input), w)` columns wide whenever the
/// width accommodates the tail, and is the tail alone otherwise.
pub proof fn lemma_truncate_width(s: Seq<char>, w: nat, tail: Seq<char>)
    requires
        forall|i: int|
            0 <= i < s.len() ==> (s[i] != '\t' && #[trigger] s[i] != '\n' && crate::ansi::char_width(
                s[i],
            ) == 1),
        forall|i: int| 0 <= i < tail.len() ==> (tail[i] != '\t' && #[trigger] tail[i] != '\n'),
    ensures
        w < visible_width_of(tail) ==> truncate_spec(s, w, tail) == tail,
        w >= visible_width_of(tail) ==> visible_width_of(truncate_spec(s, w, tail))
            == vstd::math::min(visible_width_of(s) as int, w as int),
{
    let tw = visible_width_of(tail);
    if w < tw {
    } else {
        let vw = visible_width_of(s);
        if vw <= w {
        } else {
            let budget = (w - tw) as nat;
            let kept = cut_from(s, false, 0, budget);
            lemma_cut_exact(s, false, 0, budget);
            assert(crate::ansi::col_from(kept, false, 0) == budget);
            let init = WriterModel::init();
            assert(crate::ansi::writer::model_ok(init));
            crate::ansi::writer::lemma_wfold_ok(init, kept);
            crate::ansi::writer::lemma_writer_pass_through(init, kept);
            let m1 = wfold(init, kept);
            assert(m1.out + m1.pend =~= kept);
            // The withheld open span, if any, takes no columns.
            crate::ansi::lemma_col_concat(m1.out, m1.pend, false, 0);
            if m1.in_escape {
                crate::ansi::lemma_unterminated_invisible(
                    m1.pend,
                    crate::ansi::esc_after(m1.out, false),
                );
                crate::ansi::lemma_invisible_contributes_nothing(
                    m1.pend,
                    crate::ansi::esc_after(m1.out, false),
                    crate::ansi::col_from(m1.out, false, 0),
                );
            } else {
                assert(m1.pend.len() == 0);
                assert(m1.out + m1.pend =~= m1.out);
            }
            assert(crate::ansi::col_from(m1.out, false, 0) == budget);
            let m = reset_model(m1);
            if m1.dirty {
                assert(is_marker_char(reset_seq()[0]));
                assert(!crate::ansi::is_terminator_char('['));
                assert(!crate::ansi::is_terminator_char('0'));
                assert(crate::ansi::is_terminator_char('m'));
                assert(forall|i: int|
                    1 <= i < reset_seq().len() - 1 ==> !crate::ansi::is_terminator_char(
                        #[trigger] reset_seq()[i],
                    ));
                crate::ansi::lemma_closed_span_neutral(reset_seq(), false, budget);
                crate::ansi::lemma_esc_concat(m1.out, reset_seq(), false);
                crate::ansi::lemma_col_concat(m1.out, reset_seq(), false, 0);
            }
            assert(crate::ansi::col_from(m.out, false, 0) == budget);
            assert(!crate::ansi::esc_after(m.out, false));
            crate::ansi::lemma_col_concat(m.out, tail, false, 0);
            crate::ansi::lemma_col_additive(tail, false, budget);
            assert(visible_width_of(m.out + tail) == budget + tw);
        }
    }
}

/// Truncates `input` to `width` visible columns, appending `ending` when a
/// cut was needed: the result fits the width, keeps its styling up to the
/// cut, and never lets a style bleed into the tail.
pub fn truncate_string(input: &str, width: usize, ending: &str) -> (r: Result<String, Error>)
    requires
        8 * input@.len() + 8 <= usize::MAX,
        8 * ending@.len() + 8 <= usize::MAX,
    ensures
        r matches Ok(s) && s@ == truncate_spec(input@, width as nat, ending@),
{
    Ok(truncate_core(input, width, ending))
}

} // verus!
