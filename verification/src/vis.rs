//! An iterator over the visible characters of a string.
//!
//! [`Viserator`] walks a string and hands out every character that would
//! show on a terminal, silently consuming escape spans. Its view is the
//! sequence of visible characters still to come.

use vstd::prelude::*;

use crate::ansi::{
    char_yields, esc_after, esc_step, is_terminator, lemma_esc_concat, lemma_visible_concat,
    visible_from, MARKER,
};
use crate::text::chars_vec;

verus! {

/// Reading one character from the front: the scanner state steps, and the
/// visible sequence loses its head exactly when the character yields.
pub proof fn lemma_visible_unfold_first(s: Seq<char>, e: bool)
    requires
        s.len() > 0,
    ensures
        esc_after(s, e) == esc_after(s.drop_first(), esc_step(e, s[0])),
        visible_from(s, e) == if char_yields(e, s[0]) {
            seq![s[0]] + visible_from(s.drop_first(), esc_step(e, s[0]))
        } else {
            visible_from(s.drop_first(), esc_step(e, s[0]))
        },
{
    let h = seq![s[0]];
    assert(h + s.drop_first() =~= s);
    lemma_esc_concat(h, s.drop_first(), e);
    lemma_visible_concat(h, s.drop_first(), e);
    reveal_with_fuel(esc_after, 2);
    reveal_with_fuel(visible_from, 2);
    assert(h.drop_last() =~= Seq::<char>::empty());
    assert(esc_after(h, e) == esc_step(e, s[0]));
    if char_yields(e, s[0]) {
        assert(visible_from(h, e) =~= seq![s[0]]);
        assert(visible_from(s, e) =~= seq![s[0]] + visible_from(s.drop_first(), esc_step(e, s[0])));
    } else {
        assert(visible_from(h, e) =~= Seq::<char>::empty());
        assert(visible_from(s, e) =~= visible_from(s.drop_first(), esc_step(e, s[0])));
    }
}

/// A restartable walk over the visible characters of one input string.
pub struct Viserator {
    chars: Vec<char>,
    pos: usize,
    in_ansi: bool,
}

impl View for Viserator {
    type V = Seq<char>;

    /// The visible characters not yet handed out.
    closed spec fn view(&self) -> Seq<char> {
        visible_from(self.chars@.skip(self.pos as int), self.in_ansi)
    }
}

impl Viserator {
    /// The position stays within the input.
    pub closed spec fn wf(&self) -> bool {
        self.pos <= self.chars@.len()
    }

    /// Starts a walk over the visible characters of `input`.
    pub fn new(input: &str) -> (r: Viserator)
        ensures
            r.wf(),
            r@ == visible_from(input@, false),
    {
        let cs = chars_vec(input);
        let r = Viserator { chars: cs, pos: 0, in_ansi: false };
        proof {
            assert(r.chars@.skip(0) =~= input@);
        }
        r
    }

    /// The next visible character, if any: escape spans in between are
    /// consumed without being handed out.
    pub fn next(&mut self) -> (r: Option<char>)
        requires
            old(self).wf(),
        ensures
            final(self).wf(),
            old(self)@.len() > 0 ==> r == Some(old(self)@[0]) && final(self)@ == old(
                self,
            )@.drop_first(),
            old(self)@.len() == 0 ==> r is None && final(self)@ == old(self)@,
    {
        loop
            invariant
                self.wf(),
                visible_from(self.chars@.skip(self.pos as int), self.in_ansi) == old(self)@,
            decreases self.chars@.len() - self.pos,
        {
            if self.pos >= self.chars.len() {
                proof {
                    assert(self.chars@.skip(self.pos as int) =~= Seq::<char>::empty());
                }
                return None;
            }
            let c = self.chars[self.pos];
            proof {
                let rest = self.chars@.skip(self.pos as int);
                assert(rest[0] == c);
                assert(rest.drop_first() =~= self.chars@.skip(self.pos + 1 as int));
                lemma_visible_unfold_first(rest, self.in_ansi);
            }
            self.pos = self.pos + 1;
            if c == MARKER {
                self.in_ansi = true;
            } else if self.in_ansi {
                if is_terminator(c) {
                    self.in_ansi = false;
                }
            } else {
                proof {
                    let after = visible_from(self.chars@.skip(self.pos as int), self.in_ansi);
                    assert((seq![c] + after).drop_first() =~= after);
                }
                return Some(c);
            }
        }
    }

    /// All the remaining visible characters, in order.
    pub fn collect_visible(&mut self) -> (r: Vec<char>)
        requires
            old(self).wf(),
        ensures
            final(self).wf(),
            r@ == old(self)@,
            final(self)@.len() == 0,
    {
        let mut out: Vec<char> = Vec::new();
        proof {
            assert(Seq::<char>::empty() + old(self)@ =~= old(self)@);
        }
        loop
            invariant
                self.wf(),
                out@ + self@ == old(self)@,
            decreases self@.len(),
        {
            match self.next() {
                Some(c) => {
                    out.push(c);
                    proof {
                        assert(out@ + self@ =~= old(self)@);
                    }
                },
                None => {
                    proof {
                        assert(out@ =~= old(self)@);
                    }
                    return out;
                },
            }
        }
    }
}

} // verus!
