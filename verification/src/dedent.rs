//! Removing the indentation that all lines of a text share.
//!
//! A first pass finds the smallest leading run of spaces and tabs among the
//! lines that have one ([`detect_from`]); a second pass drops that many
//! leading whitespace characters from each line ([`dedent_from`]). A text
//! with no detected indentation is returned unchanged.

use vstd::prelude::*;

use crate::error::Error;
use crate::text::{chars_vec, string_from_chars};

verus! {

/// The state of the detection pass.
pub ghost struct DetectState {
    /// Whitespace counted so far on the current line.
    pub cur: nat,
    /// The smallest indentation seen on any line so far; 0 while none was.
    pub min: nat,
    /// Still inside the leading whitespace of the current line.
    pub append: bool,
}

/// What one character does to the detection pass.
pub open spec fn detect_step(st: DetectState, c: char) -> DetectState {
    if c == ' ' || c == '\t' {
        if st.append {
            DetectState { cur: st.cur + 1, ..st }
        } else {
            st
        }
    } else if c == '\n' {
        DetectState { cur: 0, append: true, ..st }
    } else {
        if st.cur > 0 && (st.min == 0 || st.cur < st.min) {
            DetectState { cur: 0, min: st.cur, append: false }
        } else {
            DetectState { append: false, ..st }
        }
    }
}

/// The detection state after scanning all of `s`.
pub open spec fn detect_from(s: Seq<char>, st: DetectState) -> DetectState
    decreases s.len(),
{
    if s.len() == 0 {
        st
    } else {
        detect_step(detect_from(s.drop_last(), st), s.last())
    }
}

/// The shared indentation of `s`: what the detection pass reports from a
/// fresh state.
pub open spec fn detected_indent(s: Seq<char>) -> nat {
    detect_from(s, DetectState { cur: 0, min: 0, append: true }).min
}

/// The state of the removal pass.
pub ghost struct DedentState {
    /// Whitespace dropped so far on the current line.
    pub omitted: nat,
    /// Still dropping leading whitespace on the current line.
    pub omit: bool,
    /// The output built so far.
    pub out: Seq<char>,
}

/// What one character does to the removal pass, dropping up to `indent`
/// leading whitespace characters per line.
pub open spec fn dedent_step(st: DedentState, c: char, indent: nat) -> DedentState {
    if c == ' ' || c == '\t' {
        if st.omit {
            if st.omitted < indent {
                DedentState { omitted: st.omitted + 1, ..st }
            } else {
                DedentState { omit: false, out: st.out.push(c), ..st }
            }
        } else {
            DedentState { out: st.out.push(c), ..st }
        }
    } else if c == '\n' {
        DedentState { omitted: 0, omit: true, out: st.out.push(c) }
    } else {
        DedentState { out: st.out.push(c), ..st }
    }
}

/// The removal state after scanning all of `s`.
pub open spec fn dedent_from(s: Seq<char>, st: DedentState, indent: nat) -> DedentState
    decreases s.len(),
{
    if s.len() == 0 {
        st
    } else {
        dedent_step(dedent_from(s.drop_last(), st, indent), s.last(), indent)
    }
}

/// What dedenting `s` produces: the input itself when no indentation is
/// detected, otherwise the output of the removal pass.
pub open spec fn dedent_spec(s: Seq<char>) -> Seq<char> {
    let indent = detected_indent(s);
    if indent == 0 {
        s
    } else {
        dedent_from(s, DedentState { omitted: 0, omit: true, out: Seq::empty() }, indent).out
    }
}

/// Finds the indentation level shared among the lines of `input`.
fn detect_indent(input: &Vec<char>) -> (r: usize)
    ensures
        r == detected_indent(input@),
{
    let n = input.len();
    let mut cur: usize = 0;
    let mut min: usize = 0;
    let mut append: bool = true;
    let mut i: usize = 0;
    while i < n
        invariant
            n == input.len(),
            i <= n,
            cur <= i,
            (DetectState { cur: cur as nat, min: min as nat, append }) == detect_from(
                input@.take(i as int),
                (DetectState { cur: 0, min: 0, append: true }),
            ),
        decreases n - i,
    {
        let c = input[i];
        proof {
            assert(input@.take(i + 1 as int).drop_last() =~= input@.take(i as int));
            assert(input@.take(i + 1 as int).last() == c);
        }
        if c == ' ' || c == '\t' {
            if append {
                cur = cur + 1;
            }
        } else if c == '\n' {
            cur = 0;
            append = true;
        } else {
            if cur > 0 && (min == 0 || cur < min) {
                min = cur;
                cur = 0;
            }
            append = false;
        }
        i = i + 1;
    }
    proof {
        assert(input@.take(n as int) =~= input@);
    }
    min
}

/// Removes `indent` leading whitespace characters from each line.
fn dedent_run(input: &Vec<char>, indent: usize) -> (r: Vec<char>)
    ensures
        r@ == dedent_from(
            input@,
            (DedentState { omitted: 0, omit: true, out: Seq::empty() }),
            indent as nat,
        ).out,
{
    let n = input.len();
    let mut out: Vec<char> = Vec::new();
    let mut omitted: usize = 0;
    let mut omit: bool = true;
    let mut i: usize = 0;
    while i < n
        invariant
            n == input.len(),
            i <= n,
            omitted <= i,
            (DedentState { omitted: omitted as nat, omit, out: out@ }) == dedent_from(
                input@.take(i as int),
                (DedentState { omitted: 0, omit: true, out: Seq::empty() }),
                indent as nat,
            ),
        decreases n - i,
    {
        let c = input[i];
        proof {
            assert(input@.take(i + 1 as int).drop_last() =~= input@.take(i as int));
            assert(input@.take(i + 1 as int).last() == c);
        }
        if c == ' ' || c == '\t' {
            if omit {
                if omitted < indent {
                    omitted = omitted + 1;
                } else {
                    omit = false;
                    out.push(c);
                }
            } else {
                out.push(c);
            }
        } else if c == '\n' {
            omitted = 0;
            omit = true;
            out.push(c);
        } else {
            out.push(c);
        }
        i = i + 1;
    }
    proof {
        assert(input@.take(n as int) =~= input@);
    }
    out
}

/// Detects the indentation level shared among the lines of `input` and
/// removes it. Never fails: the result type mirrors the other text
/// operations of the crate.
pub fn dedent_str(input: &str) -> (r: Result<String, Error>)
    ensures
        r matches Ok(s) && s@ == dedent_spec(input@),
{
    let cs = chars_vec(input);
    let indent = detect_indent(&cs);
    if indent == 0 {
        return Ok(input.to_owned());
    }
    let out = dedent_run(&cs, indent);
    Ok(string_from_chars(&out))
}

/// Detects the indentation level shared among the lines of `input` and
/// removes it, consuming the input.
pub fn dedent_string(input: String) -> (r: Result<String, Error>)
    ensures
        r matches Ok(s) && s@ == dedent_spec(input@),
{
    dedent_str(input.as_str())
}

/// Detects the indentation level shared among the lines of `input` and
/// removes it in place.
pub fn dedent_in_place(input: &mut String) -> (r: Result<(), Error>)
    ensures
        final(input)@ == dedent_spec(old(input)@),
        r is Ok,
{
    let out = match dedent_str(input.as_str()) {
        Ok(s) => s,
        Err(_) => {
            proof {
                assert(false);
            }
            vstd::pervasive::unreached()
        },
    };
    *input = out;
    Ok(())
}

} // verus!
