//! A style-tracking pass-through writer.
//!
//! The [`Writer`] forwards every character it is given to an in-memory byte
//! sink, unchanged, while watching for escape spans. A span is buffered from
//! its marker to its terminator and flushed whole. A span that ends with the
//! reset sequence `ESC [ 0 m` clears the remembered style; any other span
//! terminated by `'m'` (an SGR span) becomes the remembered style. On demand
//! the writer can emit an explicit reset ([`Writer::reset_ansi`]) or re-emit
//! the remembered style ([`Writer::restore_ansi`]), which is how callers keep
//! styling intact across line breaks they insert themselves.

use vstd::prelude::*;
use vstd::utf8::{decode_utf8, decode_utf8_encode_utf8, encode_scalar, encode_utf8, valid_utf8};

use bytes::BytesMut;

use crate::ansi::{MARKER, is_marker_char, is_terminator, is_terminator_char};
use crate::bytebuf::{bm_bytes, bm_from_slice, bm_slice};
use crate::error::Error;
use crate::text::{
    chars_vec, clone_chars, lemma_decode_append, push_encoded_char, push_encoded_chars,
    string_from_chars, try_decode,
};
use vstd::string::StrSliceExecFns;

verus! {

/// The characters of the reset sequence, `ESC [ 0 m`.
pub open spec fn reset_seq() -> Seq<char> {
    seq!['\u{1b}', '[', '0', 'm']
}

/// True when a closed span ends with the reset sequence. The reset is
/// recognised by suffix match on the span.
pub open spec fn is_reset_span(span: Seq<char>) -> bool {
    span.len() >= 4 && span.subrange(span.len() - 4, span.len() as int) == reset_seq()
}

/// The abstract state of a [`Writer`].
pub ghost struct WriterModel {
    /// The characters forwarded to the sink so far.
    pub out: Seq<char>,
    /// The characters of the currently open escape span, if any.
    pub pend: Seq<char>,
    /// The characters of the last non-reset SGR span seen. Kept across an
    /// explicit reset, so the style can still be restored afterwards.
    pub last: Seq<char>,
    /// True while inside an unterminated escape span.
    pub in_escape: bool,
    /// True when a non-reset style is active, so that a reset is not a no-op.
    pub dirty: bool,
}

impl WriterModel {
    /// The state of a freshly created writer over an empty sink.
    pub open spec fn init() -> WriterModel {
        WriterModel {
            out: Seq::empty(),
            pend: Seq::empty(),
            last: Seq::empty(),
            in_escape: false,
            dirty: false,
        }
    }

    /// Outside an escape span nothing is buffered.
    pub open spec fn inv(self) -> bool {
        !self.in_escape ==> self.pend == Seq::<char>::empty()
    }
}

/// What writing one character does to the writer state.
pub open spec fn wstep(m: WriterModel, c: char) -> WriterModel {
    if m.in_escape {
        let span = m.pend.push(c);
        if is_terminator_char(c) {
            if is_reset_span(span) {
                WriterModel {
                    out: m.out + span,
                    pend: Seq::empty(),
                    last: Seq::empty(),
                    in_escape: false,
                    dirty: false,
                }
            } else if c == 'm' {
                WriterModel {
                    out: m.out + span,
                    pend: Seq::empty(),
                    last: span,
                    in_escape: false,
                    dirty: true,
                }
            } else {
                WriterModel { out: m.out + span, pend: Seq::empty(), in_escape: false, ..m }
            }
        } else {
            WriterModel { pend: span, ..m }
        }
    } else if is_marker_char(c) {
        WriterModel { pend: seq![c], in_escape: true, ..m }
    } else {
        WriterModel { out: m.out.push(c), ..m }
    }
}

/// The writer state after writing all of `s`.
pub open spec fn wfold(m: WriterModel, s: Seq<char>) -> WriterModel
    decreases s.len(),
{
    if s.len() == 0 {
        m
    } else {
        wstep(wfold(m, s.drop_last()), s.last())
    }
}

/// What an explicit reset does: when a style is active, the reset sequence
/// is emitted and the style marked inactive; otherwise nothing happens. The
/// remembered style is kept either way.
pub open spec fn reset_model(m: WriterModel) -> WriterModel {
    if m.dirty {
        WriterModel { out: m.out + reset_seq(), dirty: false, ..m }
    } else {
        m
    }
}

/// What a restore does: the remembered style is re-emitted verbatim.
pub open spec fn restore_model(m: WriterModel) -> WriterModel {
    WriterModel { out: m.out + m.last, ..m }
}

/// Writing any sequence preserves the model invariant.
pub proof fn lemma_wfold_inv(m: WriterModel, s: Seq<char>)
    requires
        m.inv(),
    ensures
        wfold(m, s).inv(),
    decreases s.len(),
{
    if s.len() > 0 {
        lemma_wfold_inv(m, s.drop_last());
    }
}

/// The writer is a pass-through: everything written is either already
/// forwarded or still buffered in the open span, in order and unchanged.
pub proof fn lemma_writer_pass_through(m: WriterModel, s: Seq<char>)
    requires
        m.inv(),
    ensures
        wfold(m, s).out + wfold(m, s).pend == m.out + m.pend + s,
    decreases s.len(),
{
    if s.len() == 0 {
        assert(m.out + m.pend + s =~= m.out + m.pend);
    } else {
        lemma_writer_pass_through(m, s.drop_last());
        lemma_wfold_inv(m, s.drop_last());
        let p = wfold(m, s.drop_last());
        let q = wfold(m, s);
        assert(q == wstep(p, s.last()));
        assert(q.out + q.pend =~= p.out + p.pend + seq![s.last()]);
        assert(m.out + m.pend + s =~= m.out + m.pend + s.drop_last() + seq![s.last()]);
    }
}

/// The structural invariant of a reachable writer state: an open span is
/// buffered from its marker on and has seen no terminator, and what was
/// forwarded ends outside any span.
pub open spec fn model_ok(m: WriterModel) -> bool {
    &&& m.inv()
    &&& (m.in_escape ==> m.pend.len() > 0 && is_marker_char(m.pend[0]) && (forall|i: int|
        1 <= i < m.pend.len() ==> !is_terminator_char(#[trigger] m.pend[i])))
    &&& !crate::ansi::esc_after(m.out, false)
}

/// One write step preserves the structural invariant.
pub proof fn lemma_wstep_ok(m: WriterModel, c: char)
    requires
        model_ok(m),
    ensures
        model_ok(wstep(m, c)),
{
    if m.in_escape {
        let span = m.pend.push(c);
        assert(span[0] == m.pend[0]);
        if is_terminator_char(c) {
            assert(forall|i: int|
                1 <= i < span.len() - 1 ==> !is_terminator_char(#[trigger] span[i]));
            crate::ansi::lemma_closed_span_neutral(span, false, 0);
            crate::ansi::lemma_esc_concat(m.out, span, false);
        }
    } else if is_marker_char(c) {
    } else {
        assert(m.out.push(c).drop_last() =~= m.out);
        assert(m.out.push(c).last() == c);
    }
}

/// Writing any sequence preserves the structural invariant.
pub proof fn lemma_wfold_ok(m: WriterModel, s: Seq<char>)
    requires
        model_ok(m),
    ensures
        model_ok(wfold(m, s)),
    decreases s.len(),
{
    if s.len() > 0 {
        lemma_wfold_ok(m, s.drop_last());
        lemma_wstep_ok(wfold(m, s.drop_last()), s.last());
    }
}

/// Writing marker-free characters from a normal state forwards them all,
/// leaving everything else untouched.
pub proof fn lemma_wfold_plain(m: WriterModel, t: Seq<char>)
    requires
        !m.in_escape,
        forall|i: int| 0 <= i < t.len() ==> !is_marker_char(#[trigger] t[i]),
    ensures
        wfold(m, t) == (WriterModel { out: m.out + t, ..m }),
    decreases t.len(),
{
    if t.len() == 0 {
        assert(m.out + t =~= m.out);
    } else {
        assert(forall|i: int| 0 <= i < t.drop_last().len() ==> !is_marker_char(#[trigger] t.drop_last()[i]));
        lemma_wfold_plain(m, t.drop_last());
        assert(t.last() == t[t.len() - 1]);
        assert(!is_marker_char(t.last()));
        assert((m.out + t.drop_last()).push(t.last()) =~= m.out + t);
    }
}

/// Accumulation inside a span: from a normal state, a marker followed by
/// non-terminator characters is buffered and nothing is forwarded.
proof fn lemma_span_accumulates(m: WriterModel, span: Seq<char>, j: int)
    requires
        m.inv(),
        !m.in_escape,
        span.len() > 0,
        is_marker_char(span[0]),
        1 <= j <= span.len(),
        forall|i: int| 1 <= i < j ==> !is_terminator_char(#[trigger] span[i]),
    ensures
        wfold(m, span.take(j)) == (WriterModel {
            out: m.out,
            pend: span.take(j),
            last: m.last,
            in_escape: true,
            dirty: m.dirty,
        }),
    decreases j,
{
    if j == 1 {
        assert(span.take(1).drop_last() =~= span.take(0));
        assert(span.take(1).last() == span[0]);
        assert(span.take(0).len() == 0);
        assert(wfold(m, span.take(0)) == m);
        assert(span.take(1) =~= seq![span[0]]);
    } else {
        lemma_span_accumulates(m, span, j - 1);
        assert(span.take(j).drop_last() =~= span.take(j - 1));
        assert(span.take(j).last() == span[j - 1]);
        assert(!is_terminator_char(span[j - 1]));
        assert(span.take(j - 1).push(span[j - 1]) =~= span.take(j));
    }
}

/// True of a complete SGR span: it begins with the marker, ends with `'m'`,
/// and reaches no terminator before that.
pub open spec fn is_sgr_span(span: Seq<char>) -> bool {
    &&& span.len() >= 2
    &&& is_marker_char(span[0])
    &&& span.last() == 'm'
    &&& forall|i: int| 1 <= i < span.len() - 1 ==> !is_terminator_char(#[trigger] span[i])
}

/// Writing a complete non-reset SGR span flushes it verbatim and remembers
/// it as the current style.
pub proof fn lemma_sgr_span_flush(m: WriterModel, span: Seq<char>)
    requires
        m.inv(),
        !m.in_escape,
        is_sgr_span(span),
        !is_reset_span(span),
    ensures
        wfold(m, span) == (WriterModel {
            out: m.out + span,
            pend: Seq::empty(),
            last: span,
            in_escape: false,
            dirty: true,
        }),
{
    let n = span.len() as int;
    lemma_span_accumulates(m, span, n - 1);
    assert(span.take(n).drop_last() =~= span.take(n - 1));
    assert(span.take(n) =~= span);
    assert(span.take(n).last() == span[n - 1]);
    assert(span[n - 1] == span.last());
    assert('m' as u32 == 0x6d);
    assert(is_terminator_char('m'));
    assert(span.take(n - 1).push(span[n - 1]) =~= span);
}

/// Style restoration: after a writer flushes a non-reset SGR span, then
/// performs a reset, then a restore, the restore emits exactly the bytes of
/// that span, character for character — the reset kept the remembered style.
pub proof fn lemma_style_restoration(m: WriterModel, span: Seq<char>)
    requires
        m.inv(),
        !m.in_escape,
        is_sgr_span(span),
        !is_reset_span(span),
    ensures
        ({
            let written = wfold(m, span);
            let after_reset = reset_model(written);
            let restored = restore_model(after_reset);
            &&& written.last == span
            &&& after_reset.last == span
            &&& restored.out == after_reset.out + span
        }),
{
    lemma_sgr_span_flush(m, span);
}

/// A stateful pass-through writer over an in-memory byte sink.
///
/// Every character written is forwarded to the sink in UTF-8, except that an
/// open escape span is buffered until its terminator arrives and then
/// flushed whole; an unterminated trailing span stays buffered. The last
/// non-reset SGR span is remembered and can be re-emitted.
pub struct Writer {
    sink: BytesMut,
    pend: Vec<char>,
    last: Vec<char>,
    in_escape: bool,
    dirty: bool,
}

impl View for Writer {
    type V = WriterModel;

    closed spec fn view(&self) -> WriterModel {
        WriterModel {
            out: decode_utf8(bm_bytes(self.sink)),
            pend: self.pend@,
            last: self.last@,
            in_escape: self.in_escape,
            dirty: self.dirty,
        }
    }
}

impl Writer {
    /// Well-formed: the sink holds exactly the UTF-8 encoding of the
    /// characters forwarded so far, and nothing is buffered outside a span.
    pub closed spec fn wf(&self) -> bool {
        valid_utf8(bm_bytes(self.sink)) && self@.inv()
    }

    /// Creates a writer that appends to the given sink. The sink must hold
    /// text (valid UTF-8); an empty one does.
    pub fn new(sink: BytesMut) -> (r: Writer)
        requires
            valid_utf8(bm_bytes(sink)),
        ensures
            r.wf(),
            r@ == (WriterModel {
                out: decode_utf8(bm_bytes(sink)),
                ..WriterModel::init()
            }),
    {
        Writer { sink, pend: Vec::new(), last: Vec::new(), in_escape: false, dirty: false }
    }

    /// Creates a writer over the given sink, reserving `cap` bytes for the
    /// span buffers.
    pub fn with_capacity(sink: BytesMut, cap: usize) -> (r: Writer)
        requires
            valid_utf8(bm_bytes(sink)),
        ensures
            r.wf(),
            r@ == (WriterModel {
                out: decode_utf8(bm_bytes(sink)),
                ..WriterModel::init()
            }),
    {
        Writer {
            sink,
            pend: Vec::with_capacity(cap),
            last: Vec::with_capacity(cap),
            in_escape: false,
            dirty: false,
        }
    }

    /// Creates a writer over the given byte buffer.
    pub fn from_bytes(bytes: BytesMut) -> (r: Writer)
        requires
            valid_utf8(bm_bytes(bytes)),
        ensures
            r.wf(),
            r@ == (WriterModel {
                out: decode_utf8(bm_bytes(bytes)),
                ..WriterModel::init()
            }),
    {
        Writer::new(bytes)
    }

    /// Creates a writer whose sink starts as a copy of the given bytes,
    /// which must hold text (valid UTF-8).
    pub fn from_vec(vec: Vec<u8>) -> (r: Writer)
        requires
            valid_utf8(vec@),
        ensures
            r.wf(),
            r@ == (WriterModel { out: decode_utf8(vec@), ..WriterModel::init() }),
    {
        Writer::new(bm_from_slice(vec.as_slice()))
    }

    /// Creates a writer whose sink starts with the contents of the given
    /// string.
    pub fn from_string(string: String) -> (r: Writer)
        ensures
            r.wf(),
            r@ == (WriterModel { out: string@, ..WriterModel::init() }),
    {
        let v = string.as_str().as_bytes_vec();
        proof {
            vstd::utf8::encode_utf8_valid_utf8(string@);
            vstd::utf8::encode_utf8_decode_utf8(string@);
        }
        Writer::new(bm_from_slice(v.as_slice()))
    }

    /// Consumes this writer and returns the underlying sink. Characters of
    /// an unterminated trailing span are discarded with the writer.
    pub fn into_inner(self) -> (r: BytesMut)
        requires
            self.wf(),
        ensures
            valid_utf8(bm_bytes(r)),
            decode_utf8(bm_bytes(r)) == self@.out,
    {
        self.sink
    }

    /// Consumes this writer and returns the forwarded text as a string.
    pub fn into_string(self) -> (r: Result<String, Error>)
        requires
            self.wf(),
        ensures
            r matches Ok(s) && s@ == self@.out,
    {
        match try_decode(bm_slice(&self.sink)) {
            Some(cs) => Ok(string_from_chars(&cs)),
            None => Err(Error::Utf8),
        }
    }

    /// A copy of the bytes forwarded to the sink so far.
    pub fn contents(&self) -> (r: Vec<u8>)
        requires
            self.wf(),
        ensures
            r@ == encode_utf8(self@.out),
            valid_utf8(r@),
    {
        proof {
            decode_utf8_encode_utf8(bm_bytes(self.sink));
        }
        vstd::slice::slice_to_vec(bm_slice(&self.sink))
    }

    /// Writes a single character: the core state machine step.
    pub fn put_char(&mut self, c: char)
        requires
            old(self).wf(),
        ensures
            final(self).wf(),
            final(self)@ == wstep(old(self)@, c),
    {
        if self.in_escape {
            self.pend.push(c);
            if is_terminator(c) {
                self.in_escape = false;
                let mut bytes: Vec<u8> = Vec::new();
                push_encoded_chars(&mut bytes, self.pend.as_slice());
                proof {
                    lemma_decode_append(bm_bytes(self.sink), self.pend@);
                    assert(bytes@ =~= Seq::<u8>::empty() + encode_utf8(self.pend@));
                }
                crate::bytebuf::bm_extend(&mut self.sink, bytes.as_slice());
                if ends_with_reset(&self.pend) {
                    self.last = Vec::new();
                    self.dirty = false;
                } else if c == 'm' {
                    self.last = clone_chars(self.pend.as_slice());
                    self.dirty = true;
                }
                self.pend = Vec::new();
            }
        } else if c == MARKER {
            self.in_escape = true;
            self.pend = Vec::new();
            self.pend.push(c);
            proof {
                assert(self.pend@ =~= seq![c]);
            }
        } else {
            let mut bytes: Vec<u8> = Vec::new();
            push_encoded_char(&mut bytes, c);
            proof {
                assert(encode_utf8(seq![c].drop_first()) == Seq::<u8>::empty()) by {
                    assert(seq![c].drop_first() =~= Seq::<char>::empty());
                }
                assert(encode_utf8(seq![c]) =~= encode_scalar(c as u32));
                assert(bytes@ =~= encode_utf8(seq![c]));
                lemma_decode_append(bm_bytes(self.sink), seq![c]);
            }
            crate::bytebuf::bm_extend(&mut self.sink, bytes.as_slice());
            proof {
                assert(decode_utf8(bm_bytes(self.sink)) =~= old(self)@.out.push(c));
            }
        }
    }

    /// Writes the given string through the state machine. Returns the number
    /// of bytes written, the string's UTF-8 length.
    pub fn write_str(&mut self, s: &str) -> (r: Result<usize, Error>)
        requires
            old(self).wf(),
        ensures
            final(self).wf(),
            final(self)@ == wfold(old(self)@, s@),
            r matches Ok(n) && n == encode_utf8(s@).len() as usize,
    {
        let cs = chars_vec(s);
        let n = cs.len();
        let mut i: usize = 0;
        while i < n
            invariant
                old(self).wf(),
                n == cs.len(),
                cs@ == s@,
                i <= n,
                self.wf(),
                self@ == wfold(old(self)@, cs@.take(i as int)),
            decreases n - i,
        {
            proof {
                assert(cs@.take(i + 1 as int).drop_last() =~= cs@.take(i as int));
                assert(cs@.take(i + 1 as int).last() == cs@[i as int]);
            }
            let c = cs[i];
            self.put_char(c);
            i = i + 1;
        }
        proof {
            assert(cs@.take(n as int) =~= cs@);
        }
        Ok(s.len())
    }

    /// Writes the given bytes, which must decode as UTF-8 text; otherwise
    /// nothing is written and a decode error is reported.
    pub fn write_bytes(&mut self, b: &[u8]) -> (r: Result<usize, Error>)
        requires
            old(self).wf(),
        ensures
            final(self).wf(),
            valid_utf8(b@) ==> ({
                &&& final(self)@ == wfold(old(self)@, decode_utf8(b@))
                &&& r matches Ok(n) && n == b@.len()
            }),
            !valid_utf8(b@) ==> (r matches Err(e) && e == Error::Utf8 && final(self)@ == old(
                self,
            )@),
    {
        match try_decode(b) {
            Some(cs) => {
                let n = cs.len();
                let mut i: usize = 0;
                while i < n
                    invariant
                        old(self).wf(),
                        n == cs.len(),
                        cs@ == decode_utf8(b@),
                        i <= n,
                        self.wf(),
                        self@ == wfold(old(self)@, cs@.take(i as int)),
                    decreases n - i,
                {
                    proof {
                        assert(cs@.take(i + 1 as int).drop_last() =~= cs@.take(i as int));
                        assert(cs@.take(i + 1 as int).last() == cs@[i as int]);
                    }
                    let c = cs[i];
                    self.put_char(c);
                    i = i + 1;
                }
                proof {
                    assert(cs@.take(n as int) =~= cs@);
                    vstd::utf8::decode_utf8_encode_utf8(b@);
                }
                Ok(b.len())
            },
            None => Err(Error::Utf8),
        }
    }

    /// The last non-reset SGR span seen, as a string.
    pub fn last_sequence(&self) -> (r: Result<String, Error>)
        ensures
            r matches Ok(s) && s@ == self@.last,
    {
        Ok(string_from_chars(&self.last))
    }

    /// Emits the reset sequence if a non-reset style is active, and marks the
    /// style inactive; otherwise does nothing. The remembered style is kept,
    /// so a later restore still works.
    pub fn reset_ansi(&mut self) -> (r: Result<(), Error>)
        requires
            old(self).wf(),
        ensures
            final(self).wf(),
            final(self)@ == reset_model(old(self)@),
            r is Ok,
    {
        if !self.dirty {
            return Ok(());
        }
        let mut rc: Vec<char> = Vec::new();
        rc.push('\u{1b}');
        rc.push('[');
        rc.push('0');
        rc.push('m');
        proof {
            assert(rc@ =~= reset_seq());
        }
        let mut bytes: Vec<u8> = Vec::new();
        push_encoded_chars(&mut bytes, rc.as_slice());
        proof {
            assert(bytes@ =~= Seq::<u8>::empty() + encode_utf8(reset_seq()));
            lemma_decode_append(bm_bytes(self.sink), reset_seq());
        }
        crate::bytebuf::bm_extend(&mut self.sink, bytes.as_slice());
        self.dirty = false;
        Ok(())
    }

    /// Re-emits the remembered style verbatim; a no-op when none was seen.
    pub fn restore_ansi(&mut self) -> (r: Result<(), Error>)
        requires
            old(self).wf(),
        ensures
            final(self).wf(),
            final(self)@ == restore_model(old(self)@),
            r is Ok,
    {
        let mut bytes: Vec<u8> = Vec::new();
        push_encoded_chars(&mut bytes, self.last.as_slice());
        proof {
            assert(bytes@ =~= Seq::<u8>::empty() + encode_utf8(self.last@));
            lemma_decode_append(bm_bytes(self.sink), self.last@);
        }
        crate::bytebuf::bm_extend(&mut self.sink, bytes.as_slice());
        Ok(())
    }

    /// Flushes the sink. The sink is in memory, so there is nothing to do
    /// and the call always succeeds.
    pub fn flush_writer(&mut self) -> (r: Result<(), Error>)
        requires
            old(self).wf(),
        ensures
            final(self).wf(),
            final(self)@ == old(self)@,
            r is Ok,
    {
        Ok(())
    }
}

/// Checks whether the buffered span ends with the reset sequence.
fn ends_with_reset(v: &Vec<char>) -> (r: bool)
    ensures
        r == is_reset_span(v@),
{
    let n = v.len();
    if n < 4 {
        proof {
            assert(!is_reset_span(v@));
        }
        return false;
    }
    let r = v[n - 4] == '\u{1b}' && v[n - 3] == '[' && v[n - 2] == '0' && v[n - 1] == 'm';
    proof {
        let tail = v@.subrange(v@.len() - 4, v@.len() as int);
        if r {
            assert(tail =~= reset_seq());
        } else {
            if tail == reset_seq() {
                assert(tail[0] == v@[v@.len() - 4]);
                assert(tail[1] == v@[v@.len() - 3]);
                assert(tail[2] == v@[v@.len() - 2]);
                assert(tail[3] == v@[v@.len() - 1]);
                assert(false);
            }
        }
    }
    r
}

} // verus!
