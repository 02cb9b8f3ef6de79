//! Indenting every line of a text.

use vstd::prelude::*;

use crate::text::{chars_vec, string_from_chars};

pub mod options;

pub use options::{IndentOptions, IndentStyle, LineEnding};

verus! {

use crate::indent::options::{indent_chars, indent_one, indent_line_chars};

/// The index of the first newline in `s`, or its length when none occurs.
pub open spec fn find_nl(s: Seq<char>) -> int
    decreases s.len(),
{
    if s.len() == 0 {
        0
    } else if s[0] == '\n' {
        0
    } else {
        1 + find_nl(s.drop_first())
    }
}

/// A line as cut at a newline: a single carriage return left at its end —
/// the remnant of a Windows line ending — is removed.
pub open spec fn strip_cr(line: Seq<char>) -> Seq<char> {
    if line.len() > 0 && line.last() == '\r' {
        line.drop_last()
    } else {
        line
    }
}

/// What indenting a text line by line produces: the text is split at
/// newlines (a `"\r\n"` counts as one line ending), each line is indented,
/// and the lines are joined with `'\n'` again. A trailing newline is not
/// kept.
pub open spec fn indent_lines(s: Seq<char>, opt: IndentOptions, checked: bool) -> Seq<char>
    decreases s.len(),
    via indent_lines_decreases
{
    let k = find_nl(s);
    if k >= s.len() {
        indent_one(s, opt, checked)
    } else {
        let line = strip_cr(s.take(k));
        let rest = s.skip(k + 1);
        if rest.len() == 0 {
            indent_one(line, opt, checked)
        } else {
            indent_one(line, opt, checked) + seq!['\n'] + indent_lines(rest, opt, checked)
        }
    }
}

#[via_fn]
proof fn indent_lines_decreases(s: Seq<char>, opt: IndentOptions, checked: bool) {
    lemma_find_nl_bounds(s);
}

/// The first-newline index lies within the sequence.
pub proof fn lemma_find_nl_bounds(s: Seq<char>)
    ensures
        0 <= find_nl(s) <= s.len(),
    decreases s.len(),
{
    if s.len() > 0 && s[0] != '\n' {
        lemma_find_nl_bounds(s.drop_first());
    }
}

/// A newline-free prefix shifts the first-newline index past itself.
proof fn lemma_find_nl_concat(a: Seq<char>, b: Seq<char>)
    requires
        forall|i: int| 0 <= i < a.len() ==> a[i] != '\n',
    ensures
        find_nl(a + b) == a.len() + find_nl(b),
    decreases a.len(),
{
    if a.len() == 0 {
        assert(a + b =~= b);
    } else {
        assert((a + b)[0] == a[0]);
        assert((a + b).drop_first() =~= a.drop_first() + b);
        assert(forall|i: int| 0 <= i < a.drop_first().len() ==> a.drop_first()[i] != '\n');
        lemma_find_nl_concat(a.drop_first(), b);
    }
}

/// In a newline-free sequence, the first-newline index is the length.
proof fn lemma_find_nl_none(a: Seq<char>)
    requires
        forall|i: int| 0 <= i < a.len() ==> a[i] != '\n',
    ensures
        find_nl(a) == a.len(),
    decreases a.len(),
{
    if a.len() > 0 {
        assert(forall|i: int| 0 <= i < a.drop_first().len() ==> a.drop_first()[i] != '\n');
        lemma_find_nl_none(a.drop_first());
    }
}

/// Strips a single trailing carriage return from a line of characters.
fn strip_cr_exec(line: &mut Vec<char>)
    ensures
        final(line)@ == strip_cr(old(line)@),
{
    let n = line.len();
    if n > 0 {
        let c = line[n - 1];
        if c == '\r' {
            let _ = line.pop();
            proof {
                assert(line@ =~= old(line)@.drop_last());
            }
        }
    }
}

/// Appends all of `src` to `dst`.
fn push_all(dst: &mut Vec<char>, src: &Vec<char>)
    ensures
        final(dst)@ == old(dst)@ + src@,
{
    let n = src.len();
    let mut i: usize = 0;
    while i < n
        invariant
            n == src.len(),
            i <= n,
            dst@ == old(dst)@ + src@.take(i as int),
        decreases n - i,
    {
        dst.push(src[i]);
        proof {
            assert(old(dst)@ + src@.take(i + 1 as int) =~= (old(dst)@ + src@.take(i as int)).push(
                src@[i as int],
            ));
        }
        i = i + 1;
    }
    proof {
        assert(src@.take(n as int) =~= src@);
    }
}

/// Indents every line of `input` with the given options. With `checked`, a
/// line that already starts with the full indentation is left as it is.
/// The input must not be empty.
pub fn indent_str(input: &str, options: IndentOptions, checked: bool) -> (r: String)
    requires
        input@.len() > 0,
    ensures
        r@ == indent_lines(input@, options, checked),
{
    let cs = chars_vec(input);
    let n = cs.len();
    let ghost target = indent_lines(cs@, options, checked);
    let mut out: Vec<char> = Vec::new();
    let mut cur: Vec<char> = Vec::new();
    let mut finished: bool = false;
    let mut i: usize = 0;
    proof {
        assert(cur@ + cs@.skip(0) =~= cs@);
    }
    while i < n && !finished
        invariant
            n == cs.len(),
            cs@ == input@,
            i <= n,
            forall|j: int| 0 <= j < cur@.len() ==> cur@[j] != '\n',
            !finished ==> target == out@ + indent_lines(cur@ + cs@.skip(i as int), options, checked),
            finished ==> target == out@ && i == n,
        decreases n - i, if finished { 0int } else { 1int },
    {
        let c = cs[i];
        let ghost whole = cur@ + cs@.skip(i as int);
        proof {
            assert(whole[cur@.len() as int] == c) by {
                assert(cs@.skip(i as int)[0] == cs@[i as int]);
            }
        }
        if c == '\n' {
            proof {
                lemma_find_nl_concat(cur@, cs@.skip(i as int));
                assert(cs@.skip(i as int)[0] == '\n');
                reveal_with_fuel(find_nl, 2);
                assert(find_nl(cs@.skip(i as int)) == 0);
                assert(find_nl(whole) == cur@.len());
                assert(whole.take(cur@.len() as int) =~= cur@);
                assert(whole.skip(cur@.len() as int + 1) =~= cs@.skip(i + 1 as int));
            }
            strip_cr_exec(&mut cur);
            let line = indent_line_chars(&cur, &options, checked);
            push_all(&mut out, &line);
            if i + 1 == n {
                proof {
                    assert(cs@.skip(i + 1 as int).len() == 0);
                }
                finished = true;
                i = n;
            } else {
                out.push('\n');
                cur = Vec::new();
                proof {
                    assert(out@ + indent_lines(cur@ + cs@.skip(i + 1 as int), options, checked)
                        =~= target);
                    assert(cur@ + cs@.skip(i + 1 as int) =~= cs@.skip(i + 1 as int));
                }
                i = i + 1;
            }
        } else {
            cur.push(c);
            proof {
                assert(cur@ + cs@.skip(i + 1 as int) =~= whole);
            }
            i = i + 1;
        }
    }
    if !finished {
        proof {
            assert(cs@.skip(n as int).len() == 0);
            assert(cur@ + cs@.skip(n as int) =~= cur@);
            lemma_find_nl_none(cur@);
        }
        let line = indent_line_chars(&cur, &options, checked);
        push_all(&mut out, &line);
    }
    string_from_chars(&out)
}

/// What streaming indentation produces: the indentation, then the input
/// with another indentation inserted after every newline.
pub open spec fn indent_stream(s: Seq<char>, opt: IndentOptions) -> Seq<char>
    decreases s.len(),
{
    if s.len() == 0 {
        Seq::empty()
    } else {
        indent_stream(s.drop_last(), opt) + seq![s.last()] + if s.last() == '\n' {
            indent_chars(opt)
        } else {
            Seq::empty()
        }
    }
}

/// Indents every line of `input` in a single streaming pass: the
/// indentation is written first and again after every newline. Unlike
/// [`indent_str`], this keeps carriage returns and a trailing newline as
/// they are (an indentation follows a trailing newline).
pub fn indent_str_v2(input: &str, options: IndentOptions) -> (r: String)
    ensures
        r@ == indent_chars(options) + indent_stream(input@, options),
{
    let ind = options.make_indent();
    let ind_cs = chars_vec(ind.as_str());
    let cs = chars_vec(input);
    let n = cs.len();
    let mut out: Vec<char> = Vec::new();
    push_all(&mut out, &ind_cs);
    proof {
        assert(out@ =~= indent_chars(options));
    }
    let mut i: usize = 0;
    while i < n
        invariant
            n == cs.len(),
            cs@ == input@,
            ind_cs@ == indent_chars(options),
            i <= n,
            out@ == indent_chars(options) + indent_stream(cs@.take(i as int), options),
        decreases n - i,
    {
        let c = cs[i];
        proof {
            assert(cs@.take(i + 1 as int).drop_last() =~= cs@.take(i as int));
            assert(cs@.take(i + 1 as int).last() == c);
        }
        out.push(c);
        if c == '\n' {
            push_all(&mut out, &ind_cs);
        }
        proof {
            assert(out@ =~= indent_chars(options) + indent_stream(cs@.take(i + 1 as int), options));
        }
        i = i + 1;
    }
    proof {
        assert(cs@.take(n as int) =~= cs@);
    }
    string_from_chars(&out)
}

/// Indents every line of `input` in place, exactly as [`indent_str_v2`]
/// builds its result.
pub fn indent_in_place(input: &mut String, options: IndentOptions)
    ensures
        final(input)@ == indent_chars(options) + indent_stream(old(input)@, options),
{
    let out = indent_str_v2(input.as_str(), options);
    *input = out;
}

} // verus!
