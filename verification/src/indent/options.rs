//! Options that say how text should be indented.

use vstd::prelude::*;

use crate::text::{chars_vec, string_from_chars};

verus! {

/// How lines of output are ended.
#[derive(Clone, Copy, Debug, PartialEq, Eq, Hash, Structural)]
pub enum LineEnding {
    /// POSIX-style line endings, `'\n'`.
    Newline,
    /// Windows-style line endings, `"\r\n"`.
    CarriageReturn,
}

/// The characters of a line ending.
pub open spec fn line_ending_chars(le: LineEnding) -> Seq<char> {
    match le {
        LineEnding::Newline => seq!['\n'],
        LineEnding::CarriageReturn => seq!['\r', '\n'],
    }
}

/// True when `s` contains a Windows-style line ending.
pub open spec fn contains_crlf(s: Seq<char>) -> bool {
    exists|i: int| 0 <= i && i + 1 < s.len() && s[i] == '\r' && #[trigger] s[i + 1] == '\n'
}

impl LineEnding {
    /// The Windows-style line ending.
    pub fn windows() -> (r: LineEnding)
        ensures
            r == LineEnding::CarriageReturn,
    {
        LineEnding::CarriageReturn
    }

    /// The POSIX-style line ending.
    pub fn posix() -> (r: LineEnding)
        ensures
            r == LineEnding::Newline,
    {
        LineEnding::Newline
    }

    /// Detects the line ending used by `input`: Windows-style exactly when
    /// a `"\r\n"` occurs in it.
    pub fn detect(input: &str) -> (r: LineEnding)
        ensures
            r == (if contains_crlf(input@) {
                LineEnding::CarriageReturn
            } else {
                LineEnding::Newline
            }),
    {
        let cs = chars_vec(input);
        let n = cs.len();
        if n == 0 {
            return LineEnding::Newline;
        }
        let mut i: usize = 0;
        while i + 1 < n
            invariant
                n == cs.len(),
                cs@ == input@,
                i < n,
                forall|j: int| 0 <= j && j + 1 < i + 1 ==> !(cs@[j] == '\r' && #[trigger] cs@[j
                    + 1] == '\n'),
            decreases n - i,
        {
            if cs[i] == '\r' && cs[i + 1] == '\n' {
                assert(contains_crlf(input@));
                return LineEnding::CarriageReturn;
            }
            i = i + 1;
        }
        LineEnding::Newline
    }

    /// The line ending as a string.
    pub fn as_str(&self) -> (r: &'static str)
        ensures
            r@ == line_ending_chars(*self),
    {
        match self {
            LineEnding::Newline => {
                let s = "\n";
                proof {
                    reveal_strlit("\n");
                    assert(s@ =~= seq!['\n']);
                }
                s
            },
            LineEnding::CarriageReturn => {
                let s = "\r\n";
                proof {
                    reveal_strlit("\r\n");
                    assert(s@ =~= seq!['\r', '\n']);
                }
                s
            },
        }
    }
}

impl Default for LineEnding {
    /// POSIX-style line endings.
    fn default() -> (r: LineEnding)
        ensures
            r == LineEnding::Newline,
    {
        LineEnding::Newline
    }
}

/// Whether text is indented with spaces or with tabs.
#[derive(Clone, Copy, Debug, PartialEq, Eq, Hash, Structural)]
pub enum IndentStyle {
    /// Indent text with spaces.
    Spaces,
    /// Indent text with tabs.
    Tabs,
}

/// The character an indentation style repeats.
pub open spec fn style_char(st: IndentStyle) -> char {
    match st {
        IndentStyle::Spaces => ' ',
        IndentStyle::Tabs => '\t',
    }
}

impl IndentStyle {
    /// The character this style indents with.
    pub fn as_char(&self) -> (r: char)
        ensures
            r == style_char(*self),
    {
        match self {
            IndentStyle::Spaces => ' ',
            IndentStyle::Tabs => '\t',
        }
    }

    /// The character this style indents with, as a string.
    pub fn as_str(&self) -> (r: &'static str)
        ensures
            r@ == seq![style_char(*self)],
    {
        match self {
            IndentStyle::Spaces => {
                let s = " ";
                proof {
                    reveal_strlit(" ");
                    assert(s@ =~= seq![' ']);
                }
                s
            },
            IndentStyle::Tabs => {
                let s = "\t";
                proof {
                    reveal_strlit("\t");
                    assert(s@ =~= seq!['\t']);
                }
                s
            },
        }
    }
}

impl Default for IndentStyle {
    /// Indentation with spaces.
    fn default() -> (r: IndentStyle)
        ensures
            r == IndentStyle::Spaces,
    {
        IndentStyle::Spaces
    }
}

/// How text should be indented: with which character, how many of it, and
/// which line endings the output should use (detected from the input when
/// unset).
#[derive(Clone, Copy, Debug, PartialEq, Eq, Hash)]
pub struct IndentOptions {
    style: IndentStyle,
    number: usize,
    line_endings: Option<LineEnding>,
}

/// The full indentation an option set stands for.
pub open spec fn indent_chars(opt: IndentOptions) -> Seq<char> {
    Seq::new(opt.spec_number() as nat, |i: int| style_char(opt.spec_style()))
}

/// The line ending `get_line_ending` picks for the given input.
pub open spec fn effective_ending(opt: IndentOptions, input: Seq<char>) -> LineEnding {
    match opt.spec_line_endings() {
        Some(le) => le,
        None => if contains_crlf(input) {
            LineEnding::CarriageReturn
        } else {
            LineEnding::Newline
        },
    }
}

impl IndentOptions {
    /// The indentation style.
    pub closed spec fn spec_style(&self) -> IndentStyle {
        self.style
    }

    /// The indentation amount.
    pub closed spec fn spec_number(&self) -> usize {
        self.number
    }

    /// The chosen line endings, if fixed.
    pub closed spec fn spec_line_endings(&self) -> Option<LineEnding> {
        self.line_endings
    }

    /// Indentation of four spaces.
    pub fn four_spaces() -> (r: IndentOptions)
        ensures
            r.spec_style() == IndentStyle::Spaces,
            r.spec_number() == 4,
            r.spec_line_endings() is None,
    {
        IndentOptions::spaces(4)
    }

    /// Indentation of two spaces.
    pub fn two_spaces() -> (r: IndentOptions)
        ensures
            r.spec_style() == IndentStyle::Spaces,
            r.spec_number() == 2,
            r.spec_line_endings() is None,
    {
        IndentOptions::spaces(2)
    }

    /// Indentation of one tab.
    pub fn one_tab() -> (r: IndentOptions)
        ensures
            r.spec_style() == IndentStyle::Tabs,
            r.spec_number() == 1,
            r.spec_line_endings() is None,
    {
        IndentOptions::tabs(1)
    }

    /// Options with the given style, amount and line endings.
    pub fn new(style: IndentStyle, number: usize, line_endings: Option<LineEnding>) -> (r:
        IndentOptions)
        ensures
            r.spec_style() == style,
            r.spec_number() == number,
            r.spec_line_endings() == line_endings,
    {
        IndentOptions { style, number, line_endings }
    }

    /// Options for the given number of spaces, line endings detected.
    pub fn spaces(number: usize) -> (r: IndentOptions)
        ensures
            r.spec_style() == IndentStyle::Spaces,
            r.spec_number() == number,
            r.spec_line_endings() is None,
    {
        IndentOptions { style: IndentStyle::Spaces, number, line_endings: None }
    }

    /// Options for the given number of tabs, line endings detected.
    pub fn tabs(number: usize) -> (r: IndentOptions)
        ensures
            r.spec_style() == IndentStyle::Tabs,
            r.spec_number() == number,
            r.spec_line_endings() is None,
    {
        IndentOptions { style: IndentStyle::Tabs, number, line_endings: None }
    }

    /// The indentation style.
    pub fn style(&self) -> (r: IndentStyle)
        ensures
            r == self.spec_style(),
    {
        self.style
    }

    /// The indentation amount.
    pub fn number(&self) -> (r: usize)
        ensures
            r == self.spec_number(),
    {
        self.number
    }

    /// The chosen line endings, if fixed.
    pub fn line_endings(&self) -> (r: Option<LineEnding>)
        ensures
            r == self.spec_line_endings(),
    {
        self.line_endings
    }

    /// The full indentation as a string.
    pub fn make_indent(&self) -> (r: String)
        ensures
            r@ == indent_chars(*self),
    {
        let c = self.style.as_char();
        let n = self.number;
        let mut out: Vec<char> = Vec::new();
        let mut i: usize = 0;
        while i < n
            invariant
                i <= n,
                c == style_char(self.spec_style()),
                n == self.spec_number(),
                out@ =~= indent_chars(*self).take(i as int),
            decreases n - i,
        {
            out.push(c);
            proof {
                assert(indent_chars(*self).take(i + 1 as int) =~= indent_chars(*self).take(
                    i as int,
                ).push(c));
            }
            i = i + 1;
        }
        proof {
            assert(indent_chars(*self).take(n as int) =~= indent_chars(*self));
        }
        string_from_chars(&out)
    }

    /// The line ending string these options pick for the given input.
    pub fn get_line_ending(&self, input: &str) -> (r: &'static str)
        ensures
            r@ == line_ending_chars(effective_ending(*self, input@)),
    {
        match self.line_endings {
            Some(line_ending) => line_ending.as_str(),
            None => LineEnding::detect(input).as_str(),
        }
    }

    /// Indents one line, unless it already starts with the full
    /// indentation, in which case it is returned unmodified.
    pub fn indent_line(&self, input: &str) -> (r: String)
        ensures
            r@ == (if indent_chars(*self).is_prefix_of(input@) {
                input@
            } else {
                indent_chars(*self) + input@
            }),
    {
        let cs = chars_vec(input);
        let out = indent_line_chars(&cs, self, true);
        string_from_chars(&out)
    }

    /// Indents one line without checking for existing indentation.
    pub fn indent_line_unchecked(&self, input: &str) -> (r: String)
        ensures
            r@ == indent_chars(*self) + input@,
    {
        let cs = chars_vec(input);
        let out = indent_line_chars(&cs, self, false);
        string_from_chars(&out)
    }
}

/// One line with the indentation applied: unconditionally, or — when
/// `checked` — only if the line does not already start with it.
pub open spec fn indent_one(line: Seq<char>, opt: IndentOptions, checked: bool) -> Seq<char> {
    if checked && indent_chars(opt).is_prefix_of(line) {
        line
    } else {
        indent_chars(opt) + line
    }
}

/// Checks whether `line` starts with `k` copies of `c`.
fn chars_have_prefix(line: &Vec<char>, k: usize, c: char) -> (r: bool)
    ensures
        r == Seq::new(k as nat, |i: int| c).is_prefix_of(line@),
{
    let ghost p = Seq::new(k as nat, |i: int| c);
    if k > line.len() {
        proof {
            assert(!p.is_prefix_of(line@));
        }
        return false;
    }
    let mut i: usize = 0;
    while i < k
        invariant
            k <= line.len(),
            i <= k,
            p == Seq::new(k as nat, |j: int| c),
            forall|j: int| 0 <= j < i ==> line@[j] == c,
        decreases k - i,
    {
        if line[i] != c {
            proof {
                assert(p[i as int] == c);
                assert(line@.subrange(0, p.len() as int)[i as int] == line@[i as int]);
                assert(!p.is_prefix_of(line@));
            }
            return false;
        }
        i = i + 1;
    }
    proof {
        assert(p =~= line@.subrange(0, p.len() as int));
        assert(p.is_prefix_of(line@));
    }
    true
}

/// Indents one line of characters.
pub(crate) fn indent_line_chars(line: &Vec<char>, opt: &IndentOptions, checked: bool) -> (r: Vec<
    char,
>)
    ensures
        r@ == indent_one(line@, *opt, checked),
{
    let k = opt.number();
    let c = opt.style().as_char();
    let n = line.len();
    if checked {
        proof {
            assert(indent_chars(*opt) =~= Seq::new(k as nat, |i: int| c));
        }
        if chars_have_prefix(line, k, c) {
            return crate::text::clone_chars(line.as_slice());
        }
    }
    let mut out: Vec<char> = Vec::new();
    let mut i: usize = 0;
    while i < k
        invariant
            i <= k,
            k == opt.spec_number(),
            c == style_char(opt.spec_style()),
            out@ =~= indent_chars(*opt).take(i as int),
        decreases k - i,
    {
        out.push(c);
        proof {
            assert(indent_chars(*opt).take(i + 1 as int) =~= indent_chars(*opt).take(
                i as int,
            ).push(c));
        }
        i = i + 1;
    }
    proof {
        assert(indent_chars(*opt).take(k as int) =~= indent_chars(*opt));
    }
    let mut j: usize = 0;
    while j < n
        invariant
            j <= n,
            n == line.len(),
            out@ =~= indent_chars(*opt) + line@.take(j as int),
        decreases n - j,
    {
        out.push(line[j]);
        proof {
            assert(indent_chars(*opt) + line@.take(j + 1 as int) =~= (indent_chars(*opt)
                + line@.take(j as int)).push(line@[j as int]));
        }
        j = j + 1;
    }
    proof {
        assert(line@.take(n as int) =~= line@);
    }
    out
}

} // verus!
