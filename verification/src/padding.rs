//! Padding each line of a styled text to a target visible width.
//!
//! The padding [`Writer`] feeds every character through a style-tracking
//! [`AnsiWriter`] while independently tracking the visible column with the
//! column rules of [`crate::ansi`]. On each newline — and once more when the
//! stream is closed mid-line — it emits enough spaces to bring the line to
//! the target width, then a style reset (so the padding never inherits the
//! line's own colour), then the newline itself.

use vstd::prelude::*;
use vstd::utf8::{decode_utf8, decode_utf8_encode_utf8, encode_utf8, valid_utf8};

use bytes::BytesMut;

use crate::ansi::writer::{
    reset_model, reset_seq, wfold, wstep, Writer as AnsiWriter, WriterModel,
};
use crate::ansi::{char_width_exec, col_step, is_marker_char, is_terminator, MARKER};
use crate::bytebuf::{bm_bytes, bm_new, bm_with_capacity};
use crate::error::Error;
use crate::text::{chars_vec, lemma_encode_ge_len, string_from_chars, try_decode};

verus! {

/// A run of `k` spaces.
pub open spec fn spaces(k: nat) -> Seq<char> {
    Seq::new(k, |i: int| ' ')
}

/// The abstract state of a padding writer.
pub ghost struct PadModel {
    /// The target visible width of every line.
    pub width: nat,
    /// The visible column reached on the current line.
    pub col: nat,
    /// The state of the underlying style-tracking writer.
    pub w: WriterModel,
}

/// How many spaces the current line still needs.
pub open spec fn pad_gap(m: PadModel) -> nat {
    if m.col < m.width {
        (m.width - m.col) as nat
    } else {
        0
    }
}

/// What one written character does to a padding writer: characters in
/// escape spans pass through untouched; a newline first pads the line and
/// resets the style; any other character advances the column.
pub open spec fn pad_step(m: PadModel, c: char) -> PadModel {
    if m.w.in_escape || is_marker_char(c) {
        PadModel { w: wstep(m.w, c), ..m }
    } else if c == '\n' {
        let w1 = wfold(m.w, spaces(pad_gap(m)));
        let w2 = reset_model(w1);
        let w3 = wstep(w2, '\n');
        PadModel { col: 0, w: w3, ..m }
    } else {
        PadModel { col: col_step(m.col, c), w: wstep(m.w, c), ..m }
    }
}

/// The padding writer state after writing all of `s`.
pub open spec fn pad_fold(m: PadModel, s: Seq<char>) -> PadModel
    decreases s.len(),
{
    if s.len() == 0 {
        m
    } else {
        pad_step(pad_fold(m, s.drop_last()), s.last())
    }
}

/// Closing the stream: a line left open is padded and the style reset.
pub open spec fn pad_close(m: PadModel) -> PadModel {
    if m.col != 0 {
        let w1 = wfold(m.w, spaces(pad_gap(m)));
        let w2 = reset_model(w1);
        PadModel { col: 0, w: w2, ..m }
    } else {
        m
    }
}

/// The state of a fresh padding writer.
pub open spec fn pad_init(width: nat) -> PadModel {
    PadModel { width, col: 0, w: WriterModel::init() }
}

/// The characters produced by padding `s` to `width` and closing the
/// stream.
pub open spec fn pad_text(s: Seq<char>, width: nat) -> Seq<char> {
    pad_close(pad_fold(pad_init(width), s)).w.out
}

/// A writer that pads every line it forwards to a target visible width.
pub struct Writer {
    padding: usize,
    ansi_writer: AnsiWriter,
    cache: Vec<u8>,
    line_len: usize,
    in_ansi: bool,
}

impl View for Writer {
    type V = PadModel;

    closed spec fn view(&self) -> PadModel {
        PadModel {
            width: self.padding as nat,
            col: self.line_len as nat,
            w: self.ansi_writer@,
        }
    }
}

impl Writer {
    /// Well-formed: the inner writer is, the scanner states agree, and the
    /// snapshot taken at the last close holds text.
    pub closed spec fn wf(&self) -> bool {
        &&& self.ansi_writer.wf()
        &&& self.in_ansi == self.ansi_writer@.in_escape
        &&& valid_utf8(self.cache@)
    }

    /// The snapshot of the output taken at the last close.
    pub closed spec fn cached(&self) -> Seq<u8> {
        self.cache@
    }

    /// Creates a padding writer with the given target width.
    pub fn new(padding: usize) -> (r: Writer)
        ensures
            r.wf(),
            r@ == pad_init(padding as nat),
            r.cached() == Seq::<u8>::empty(),
    {
        proof {
            assert(valid_utf8(Seq::<u8>::empty()));
            assert(decode_utf8(Seq::<u8>::empty()) =~= Seq::<char>::empty());
        }
        Writer {
            padding,
            ansi_writer: AnsiWriter::new(bm_new()),
            cache: Vec::new(),
            line_len: 0,
            in_ansi: false,
        }
    }

    /// Creates a padding writer with the given target width, reserving
    /// `cap` bytes of room.
    pub fn with_capacity(padding: usize, cap: usize) -> (r: Writer)
        ensures
            r.wf(),
            r@ == pad_init(padding as nat),
            r.cached() == Seq::<u8>::empty(),
    {
        proof {
            assert(valid_utf8(Seq::<u8>::empty()));
            assert(decode_utf8(Seq::<u8>::empty()) =~= Seq::<char>::empty());
        }
        Writer {
            padding,
            ansi_writer: AnsiWriter::with_capacity(bm_with_capacity(cap), cap),
            cache: Vec::new(),
            line_len: 0,
            in_ansi: false,
        }
    }

    /// Creates a padding writer that appends to the given sink, which must
    /// hold text (valid UTF-8).
    pub fn new_piped(width: usize, buffer: BytesMut) -> (r: Writer)
        requires
            valid_utf8(bm_bytes(buffer)),
        ensures
            r.wf(),
            r@ == (PadModel {
                width: width as nat,
                col: 0,
                w: WriterModel { out: decode_utf8(bm_bytes(buffer)), ..WriterModel::init() },
            }),
            r.cached() == Seq::<u8>::empty(),
    {
        proof {
            assert(valid_utf8(Seq::<u8>::empty()));
        }
        Writer {
            padding: width,
            ansi_writer: AnsiWriter::new(buffer),
            cache: Vec::new(),
            line_len: 0,
            in_ansi: false,
        }
    }

    /// Emits the spaces the current line still needs.
    fn pad(&mut self)
        requires
            old(self).wf(),
        ensures
            final(self).wf(),
            final(self)@ == (PadModel {
                w: wfold(old(self)@.w, spaces(pad_gap(old(self)@))),
                ..old(self)@
            }),
            final(self).cached() == old(self).cached(),
    {
        let k: usize = if self.padding > self.line_len {
            self.padding - self.line_len
        } else {
            0
        };
        proof {
            assert(k as nat == pad_gap(self@));
        }
        let mut j: usize = 0;
        while j < k
            invariant
                j <= k,
                self.wf(),
                self.padding == old(self).padding,
                self.line_len == old(self).line_len,
                self.cache@ == old(self).cache@,
                self.ansi_writer@ == wfold(old(self)@.w, spaces(j as nat)),
            decreases k - j,
        {
            proof {
                assert(spaces((j + 1) as nat).drop_last() =~= spaces(j as nat));
                assert(spaces((j + 1) as nat).last() == ' ');
            }
            self.ansi_writer.put_char(' ');
            j = j + 1;
        }
    }

    /// Writes the given string, padding each completed line to the target
    /// width. Returns the number of bytes consumed, the string's UTF-8
    /// length.
    pub fn write_str(&mut self, s: &str) -> (r: Result<usize, Error>)
        requires
            old(self).wf(),
            old(self)@.col + 8 * s@.len() + 8 <= usize::MAX,
        ensures
            final(self).wf(),
            final(self)@ == pad_fold(old(self)@, s@),
            final(self).cached() == old(self).cached(),
            r matches Ok(n) && n == encode_utf8(s@).len() as usize,
    {
        let cs = chars_vec(s);
        let n = cs.len();
        let mut i: usize = 0;
        while i < n
            invariant
                n == cs.len(),
                cs@ == s@,
                i <= n,
                self.wf(),
                self@ == pad_fold(old(self)@, cs@.take(i as int)),
                self.cache@ == old(self).cache@,
                self.padding == old(self).padding,
                self@.col <= old(self)@.col + 8 * i,
                old(self)@.col + 8 * n + 8 <= usize::MAX,
            decreases n - i,
        {
            let c = cs[i];
            proof {
                assert(cs@.take(i + 1 as int).drop_last() =~= cs@.take(i as int));
                assert(cs@.take(i + 1 as int).last() == c);
            }
            if self.in_ansi {
                self.ansi_writer.put_char(c);
                if is_terminator(c) {
                    self.in_ansi = false;
                }
            } else if c == MARKER {
                self.ansi_writer.put_char(c);
                self.in_ansi = true;
            } else if c == '\n' {
                self.pad();
                let _ = self.ansi_writer.reset_ansi();
                self.ansi_writer.put_char('\n');
                self.line_len = 0;
            } else if c == '\t' {
                self.ansi_writer.put_char(c);
                self.line_len = self.line_len + (8 - self.line_len % 8);
            } else {
                self.ansi_writer.put_char(c);
                self.line_len = self.line_len + char_width_exec(c);
            }
            i = i + 1;
        }
        proof {
            assert(cs@.take(n as int) =~= cs@);
        }
        Ok(s.len())
    }

    /// Decodes the given bytes as text and writes them as
    /// [`Writer::write_str`] does. Fails exactly when the bytes are not
    /// valid UTF-8, writing nothing.
    pub fn write_bytes(&mut self, bytes: &[u8]) -> (r: Result<usize, Error>)
        requires
            old(self).wf(),
            old(self)@.col + 8 * bytes@.len() + 8 <= usize::MAX,
        ensures
            final(self).wf(),
            final(self).cached() == old(self).cached(),
            valid_utf8(bytes@) ==> ({
                &&& final(self)@ == pad_fold(old(self)@, decode_utf8(bytes@))
                &&& r is Ok
            }),
            !valid_utf8(bytes@) ==> (r matches Err(e) && e == Error::Utf8 && final(self)@ == old(
                self,
            )@),
    {
        match try_decode(bytes) {
            None => Err(Error::Utf8),
            Some(cs) => {
                let s = string_from_chars(&cs);
                proof {
                    lemma_encode_ge_len(cs@);
                    decode_utf8_encode_utf8(bytes@);
                }
                self.write_str(s.as_str())
            },
        }
    }

    /// Closes the stream: a line left open is padded and the style reset,
    /// and the output is snapshotted for [`Writer::to_vec`] and
    /// [`Writer::to_string`].
    pub fn close(&mut self) -> (r: Result<(), Error>)
        requires
            old(self).wf(),
        ensures
            final(self).wf(),
            final(self)@ == pad_close(old(self)@),
            final(self).cached() == encode_utf8(pad_close(old(self)@).w.out),
            r is Ok,
    {
        if self.line_len != 0 {
            self.pad();
            let _ = self.ansi_writer.reset_ansi();
            self.line_len = 0;
        }
        self.cache = self.ansi_writer.contents();
        Ok(())
    }

    /// The output as snapshotted at the last close.
    pub fn to_vec(&self) -> (r: Vec<u8>)
        ensures
            r@ == self.cached(),
    {
        vstd::slice::slice_to_vec(self.cache.as_slice())
    }

    /// The output as snapshotted at the last close, as a string.
    pub fn to_string(&self) -> (r: Result<String, Error>)
        requires
            self.wf(),
        ensures
            r matches Ok(s) && s@ == decode_utf8(self.cached()),
    {
        match try_decode(self.cache.as_slice()) {
            Some(cs) => Ok(string_from_chars(&cs)),
            None => Err(Error::Utf8),
        }
    }
}

/// Spaces are ordinary visible characters: no marker, no newline among
/// them.
proof fn lemma_spaces_plain(k: nat)
    ensures
        forall|i: int| 0 <= i < spaces(k).len() ==> !is_marker_char(#[trigger] spaces(k)[i]),
        forall|i: int| 0 <= i < spaces(k).len() ==> spaces(k)[i] != '\n',
{
}

/// Writing `k` spaces from a normal state advances the column by exactly
/// `k` and stays in the normal state.
proof fn lemma_spaces_col(k: nat, col0: nat)
    ensures
        !crate::ansi::esc_after(spaces(k), false),
        crate::ansi::col_from(spaces(k), false, col0) == col0 + k,
    decreases k,
{
    if k == 0 {
        assert(spaces(0).len() == 0);
    } else {
        lemma_spaces_col((k - 1) as nat, col0);
        assert(spaces(k).drop_last() =~= spaces((k - 1) as nat));
        assert(spaces(k).last() == ' ');
        assert(crate::ansi::char_width(' ') == 1);
    }
}

/// Padding idempotence on exact width: when a line's visible width already
/// equals the target, the newline triggers no spaces at all — only the
/// conditional style reset and the newline itself reach the output — and a
/// close emits nothing beyond the reset.
pub proof fn lemma_pad_exact_width(m: PadModel)
    requires
        !m.w.in_escape,
        m.col == m.width,
    ensures
        pad_step(m, '\n').w.out == reset_model(m.w).out + seq!['\n'],
        m.col != 0 ==> pad_close(m).w.out == reset_model(m.w).out,
        m.col == 0 ==> pad_close(m) == m,
{
    assert(pad_gap(m) == 0);
    assert(spaces(0) =~= Seq::<char>::empty());
    assert(wfold(m.w, spaces(0)) == m.w);
    let w2 = reset_model(m.w);
    assert(!is_marker_char('\n'));
    assert(wstep(w2, '\n').out =~= w2.out + seq!['\n']);
}

/// Every completed line of `out` is at least `width` columns wide: at each
/// newline, the column reached just before it is at least `width`.
pub open spec fn lines_padded(out: Seq<char>, width: nat) -> bool {
    forall|i: int|
        0 <= i < out.len() && out[i] == '\n' ==> crate::ansi::col_from(out.take(i), false, 0)
            >= width
}

/// The shape of an open escape span as the padding writer builds one: it
/// starts at a marker, has seen no terminator, and — when newlines only
/// occur outside spans — contains no newline.
spec fn open_span_wf(p: Seq<char>) -> bool {
    &&& p.len() > 0
    &&& is_marker_char(p[0])
    &&& forall|i: int| 1 <= i < p.len() ==> !crate::ansi::is_terminator_char(#[trigger] p[i])
    &&& forall|i: int| 0 <= i < p.len() ==> p[i] != '\n'
}

/// The invariant the padding writer maintains while scanning: the output so
/// far ends outside any span, its current partial line is exactly `col`
/// columns wide, and every completed line is already padded.
spec fn pad_state_ok(m: PadModel) -> bool {
    &&& m.w.inv()
    &&& (m.w.in_escape ==> open_span_wf(m.w.pend))
    &&& !crate::ansi::esc_after(m.w.out, false)
    &&& crate::ansi::col_from(m.w.out, false, 0) == m.col
    &&& lines_padded(m.w.out, m.width)
}

/// Appending characters that contain no newline disturbs no completed line.
proof fn lemma_lines_padded_append(out: Seq<char>, ext: Seq<char>, width: nat)
    requires
        lines_padded(out, width),
        forall|i: int| 0 <= i < ext.len() ==> ext[i] != '\n',
    ensures
        lines_padded(out + ext, width),
{
    let whole = out + ext;
    assert forall|i: int|
        0 <= i < whole.len() && whole[i] == '\n' implies crate::ansi::col_from(
        whole.take(i),
        false,
        0,
    ) >= width by {
        assert(i < out.len());
        assert(whole[i] == out[i]);
        assert(whole.take(i) =~= out.take(i));
    }
}

/// One padding step preserves the scan invariant, provided a newline never
/// arrives while a span is open.
proof fn lemma_pad_step_ok(m: PadModel, c: char)
    requires
        pad_state_ok(m),
        c == '\n' ==> !m.w.in_escape,
    ensures
        pad_state_ok(pad_step(m, c)),
        pad_step(m, c).w.in_escape == crate::ansi::esc_step(m.w.in_escape, c),
        pad_step(m, c).width == m.width,
{
    let out = m.w.out;
    let width = m.width;
    if m.w.in_escape {
        if crate::ansi::is_terminator_char(c) {
            let span = m.w.pend.push(c);
            assert(span[0] == m.w.pend[0]);
            assert(forall|i: int|
                1 <= i < span.len() - 1 ==> !crate::ansi::is_terminator_char(#[trigger] span[i]));
            assert(span.last() == c);
            assert(c != '\n');
            crate::ansi::lemma_closed_span_neutral(span, false, m.col);
            crate::ansi::lemma_esc_concat(out, span, false);
            crate::ansi::lemma_col_concat(out, span, false, 0);
            crate::ansi::lemma_visible_concat(out, span, false);
            crate::ansi::lemma_invisible_contributes_nothing(
                span,
                false,
                crate::ansi::col_from(out, false, 0),
            );
            assert(forall|i: int| 0 <= i < span.len() ==> span[i] != '\n');
            lemma_lines_padded_append(out, span, width);
        } else {
            let p2 = m.w.pend.push(c);
            assert(p2[0] == m.w.pend[0]);
            assert(open_span_wf(p2));
        }
    } else if is_marker_char(c) {
        assert(open_span_wf(seq![c]));
    } else if c == '\n' {
        let k = pad_gap(m);
        let sp = spaces(k);
        lemma_spaces_plain(k);
        crate::ansi::writer::lemma_wfold_plain(m.w, sp);
        let w1 = wfold(m.w, sp);
        crate::ansi::lemma_esc_concat(out, sp, false);
        crate::ansi::lemma_col_concat(out, sp, false, 0);
        lemma_spaces_col(k, m.col);
        let c1 = crate::ansi::col_from(w1.out, false, 0);
        assert(c1 == m.col + k);
        assert(c1 >= width);
        let w2 = reset_model(w1);
        let mid: Seq<char> = if m.w.dirty {
            sp + reset_seq()
        } else {
            sp
        };
        if m.w.dirty {
            assert(is_marker_char(reset_seq()[0]));
            assert(!crate::ansi::is_terminator_char('['));
            assert(!crate::ansi::is_terminator_char('0'));
            assert(crate::ansi::is_terminator_char('m'));
            assert(forall|i: int|
                1 <= i < reset_seq().len() - 1 ==> !crate::ansi::is_terminator_char(
                    #[trigger] reset_seq()[i],
                ));
            crate::ansi::lemma_closed_span_neutral(reset_seq(), false, c1);
            assert(w2.out =~= out + mid);
            crate::ansi::lemma_esc_concat(w1.out, reset_seq(), false);
            crate::ansi::lemma_col_concat(w1.out, reset_seq(), false, 0);
        } else {
            assert(w2.out =~= out + mid);
        }
        assert(!crate::ansi::esc_after(w2.out, false));
        assert(crate::ansi::col_from(w2.out, false, 0) == c1);
        let w3 = wstep(w2, '\n');
        assert(w3.out =~= w2.out + seq!['\n']);
        assert(forall|i: int| 0 <= i < mid.len() ==> #[trigger] mid[i] != '\n');
        lemma_lines_padded_append(out, mid, width);
        crate::ansi::lemma_esc_concat(w2.out, seq!['\n'], false);
        crate::ansi::lemma_col_concat(w2.out, seq!['\n'], false, 0);
        reveal_with_fuel(crate::ansi::esc_after, 2);
        reveal_with_fuel(crate::ansi::col_from, 2);
        assert(crate::ansi::esc_after(seq!['\n'], false) == false);
        assert(crate::ansi::col_from(seq!['\n'], false, c1) == 0);
        assert(lines_padded(w3.out, width)) by {
            assert forall|i: int|
                0 <= i < w3.out.len() && w3.out[i] == '\n' implies crate::ansi::col_from(
                w3.out.take(i),
                false,
                0,
            ) >= width by {
                if i < w2.out.len() {
                    assert(w3.out[i] == w2.out[i]);
                    assert(w3.out.take(i) =~= w2.out.take(i));
                    assert(crate::ansi::col_from(w2.out.take(i), false, 0) >= width);
                } else {
                    assert(i == w2.out.len());
                    assert(w3.out.take(i) =~= w2.out);
                }
            }
        }
    } else {
        assert(wstep(m.w, c).out =~= out.push(c));
        assert(out.push(c).drop_last() =~= out);
        assert(crate::ansi::char_yields(false, c));
        assert(crate::ansi::col_from(out.push(c), false, 0) == col_step(m.col, c));
        assert(forall|i: int| 0 <= i < seq![c].len() ==> #[trigger] seq![c][i] != '\n');
        assert(out.push(c) =~= out + seq![c]);
        lemma_lines_padded_append(out, seq![c], width);
    }
}

/// Folding a whole input preserves the scan invariant, and the writer's
/// span state tracks the scanner.
proof fn lemma_pad_fold_ok(m: PadModel, s: Seq<char>)
    requires
        pad_state_ok(m),
        forall|i: int|
            0 <= i < s.len() && #[trigger] s[i] == '\n' ==> !crate::ansi::esc_after(
                s.take(i),
                m.w.in_escape,
            ),
    ensures
        pad_state_ok(pad_fold(m, s)),
        pad_fold(m, s).w.in_escape == crate::ansi::esc_after(s, m.w.in_escape),
        pad_fold(m, s).width == m.width,
    decreases s.len(),
{
    if s.len() == 0 {
    } else {
        let pre = s.drop_last();
        assert(forall|i: int|
            0 <= i < pre.len() && #[trigger] pre[i] == '\n' ==> !crate::ansi::esc_after(
                pre.take(i),
                m.w.in_escape,
            )) by {
            assert forall|i: int|
                0 <= i < pre.len() && #[trigger] pre[i] == '\n' implies !crate::ansi::esc_after(
                pre.take(i),
                m.w.in_escape,
            ) by {
                assert(pre[i] == s[i]);
                assert(pre.take(i) =~= s.take(i));
            }
        }
        lemma_pad_fold_ok(m, pre);
        let c = s.last();
        if c == '\n' {
            assert(pre =~= s.take(s.len() - 1));
            assert(s[s.len() - 1] == '\n');
        }
        lemma_pad_step_ok(pad_fold(m, pre), c);
    }
}

/// Padding invariant: for every input whose newlines stand outside escape
/// spans and which does not end inside an unterminated span, and for every
/// target width, each line of the padded output — the completed ones and
/// the final one — has visible width at least the target, or is empty.
/// (A trailing unterminated span would swallow the closing pad, as it
/// swallows everything after its marker.)
pub proof fn lemma_padding_invariant(s: Seq<char>, width: nat)
    requires
        forall|i: int|
            0 <= i < s.len() && #[trigger] s[i] == '\n' ==> !crate::ansi::esc_after(
                s.take(i),
                false,
            ),
        !crate::ansi::esc_after(s, false),
    ensures
        lines_padded(pad_text(s, width), width),
        crate::ansi::col_from(pad_text(s, width), false, 0) == 0 || crate::ansi::col_from(
            pad_text(s, width),
            false,
            0,
        ) >= width,
{
    let m0 = pad_init(width);
    assert(pad_state_ok(m0)) by {
        assert(crate::ansi::col_from(m0.w.out, false, 0) == 0);
    }
    lemma_pad_fold_ok(m0, s);
    let m = pad_fold(m0, s);
    let out = m.w.out;
    if m.col != 0 {
        let k = pad_gap(m);
        let sp = spaces(k);
        lemma_spaces_plain(k);
        crate::ansi::writer::lemma_wfold_plain(m.w, sp);
        let w1 = wfold(m.w, sp);
        crate::ansi::lemma_esc_concat(out, sp, false);
        crate::ansi::lemma_col_concat(out, sp, false, 0);
        lemma_spaces_col(k, m.col);
        let c1 = crate::ansi::col_from(w1.out, false, 0);
        assert(c1 == m.col + k);
        assert(c1 >= width);
        let w2 = reset_model(w1);
        let mid: Seq<char> = if m.w.dirty {
            sp + reset_seq()
        } else {
            sp
        };
        if m.w.dirty {
            assert(is_marker_char(reset_seq()[0]));
            assert(!crate::ansi::is_terminator_char('['));
            assert(!crate::ansi::is_terminator_char('0'));
            assert(crate::ansi::is_terminator_char('m'));
            assert(forall|i: int|
                1 <= i < reset_seq().len() - 1 ==> !crate::ansi::is_terminator_char(
                    #[trigger] reset_seq()[i],
                ));
            crate::ansi::lemma_closed_span_neutral(reset_seq(), false, c1);
            assert(w2.out =~= out + mid);
            crate::ansi::lemma_esc_concat(w1.out, reset_seq(), false);
            crate::ansi::lemma_col_concat(w1.out, reset_seq(), false, 0);
        } else {
            assert(w2.out =~= out + mid);
        }
        assert(crate::ansi::col_from(w2.out, false, 0) == c1);
        assert(forall|i: int| 0 <= i < mid.len() ==> #[trigger] mid[i] != '\n');
        lemma_lines_padded_append(out, mid, width);
        assert(pad_text(s, width) == w2.out);
    } else {
        assert(pad_text(s, width) == out);
    }
}

/// Pads every line of `string` to the target width and returns the result.
pub fn pad_string(string: &str, padding: usize) -> (r: Result<String, Error>)
    requires
        8 * string@.len() + 8 <= usize::MAX,
    ensures
        r matches Ok(out) && out@ == pad_text(string@, padding as nat),
{
    let mut w = Writer::new(padding);
    let _ = w.write_str(string);
    let _ = w.close();
    proof {
        vstd::utf8::encode_utf8_decode_utf8(pad_text(string@, padding as nat));
    }
    w.to_string()
}

/// Pads every line of the given UTF-8 bytes to the target width and returns
/// the resulting bytes. Fails exactly when the bytes are not valid UTF-8.
pub fn pad_bytes(bytes: &[u8], padding: usize) -> (r: Result<Vec<u8>, Error>)
    requires
        8 * bytes@.len() + 8 <= usize::MAX,
    ensures
        valid_utf8(bytes@) ==> (r matches Ok(v) && v@ == encode_utf8(
            pad_text(decode_utf8(bytes@), padding as nat),
        )),
        !valid_utf8(bytes@) ==> (r matches Err(e) && e == Error::Utf8),
{
    match try_decode(bytes) {
        None => Err(Error::Utf8),
        Some(cs) => {
            let s = string_from_chars(&cs);
            proof {
                lemma_encode_ge_len(cs@);
                decode_utf8_encode_utf8(bytes@);
            }
            let mut w = Writer::new(padding);
            let _ = w.write_str(s.as_str());
            let _ = w.close();
            Ok(w.to_vec())
        },
    }
}

} // verus!
