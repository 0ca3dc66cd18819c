//! Block indent / unindent for the script editor: Tab indents every selected
//! line by one level, Shift+Tab unindents each by at most one level, in the
//! configured indent style. Empty lines are not indented, and unindenting a
//! line at column zero leaves it unchanged.

use vstd::prelude::*;
use vstd::string::StringExecFns;
use crate::auto_indent::{IndentStyle, unit_chars};
use crate::text::{chars_of, owned, string_from_chars};

verus! {

broadcast use vstd::string::group_string_axioms;

/// A line indented by one level; an empty line stays empty.
pub open spec fn indented(style: IndentStyle, line: Seq<char>) -> Seq<char> {
    if line.len() == 0 {
        line
    } else {
        unit_chars(style) + line
    }
}

/// The number of leading spaces of `line` among its first `w` characters.
pub open spec fn leading_spaces(line: Seq<char>, w: int) -> int
    decreases line.len(),
{
    if w <= 0 || line.len() == 0 || line[0] != ' ' {
        0
    } else {
        1 + leading_spaces(line.drop_first(), w - 1)
    }
}

/// A line with at most one level of leading indentation removed.
pub open spec fn unindented(style: IndentStyle, line: Seq<char>) -> Seq<char> {
    match style {
        IndentStyle::Tabs => if line.len() > 0 && line[0] == '\t' { line.drop_first() } else { line },
        IndentStyle::Spaces(w) => line.skip(leading_spaces(line, w as int)),
    }
}

pub proof fn lemma_leading_spaces(line: Seq<char>, w: int)
    ensures
        0 <= leading_spaces(line, w) <= line.len(),
        w >= 0 ==> leading_spaces(line, w) <= w,
        forall|k: int| 0 <= k < leading_spaces(line, w) ==> line[k] == ' ',
    decreases line.len(),
{
    if !(w <= 0 || line.len() == 0 || line[0] != ' ') {
        lemma_leading_spaces(line.drop_first(), w - 1);
        assert forall|k: int| 0 <= k < leading_spaces(line, w) implies line[k] == ' ' by {
            if k > 0 {
                assert(line[k] == line.drop_first()[k - 1]);
            }
        }
    }
}

/// Indents and unindents blocks of lines using a fixed indent style.
#[derive(Debug, Clone, Copy)]
pub struct BlockIndenter {
    style: IndentStyle,
}

impl BlockIndenter {
    /// The configured style.
    pub closed spec fn style_view(&self) -> IndentStyle {
        self.style
    }

    /// Creates a block indenter for the given style.
    pub fn new(style: IndentStyle) -> (r: Self)
        ensures
            r.style_view() == style,
    {
        BlockIndenter { style }
    }

    /// The configured indent style.
    pub fn style(&self) -> (r: IndentStyle)
        ensures
            r == self.style_view(),
    {
        self.style
    }

    /// Indents one line by one level; empty lines are left untouched.
    fn indent_line(&self, line: &str) -> (r: String)
        ensures
            r@ == indented(self.style_view(), line@),
    {
        if line.is_empty() {
            owned(line)
        } else {
            let mut s = self.style.unit();
            s.append(line);
            s
        }
    }

    /// Unindents one line by at most one level, preserving the rest of its
    /// leading whitespace.
    fn unindent_line(&self, line: &str) -> (r: String)
        ensures
            r@ == unindented(self.style_view(), line@),
    {
        let cs = chars_of(line);
        match self.style {
            IndentStyle::Tabs => {
                if cs.len() > 0 && cs[0] == '\t' {
                    let rest = crate::find_in_files::copy_range(cs.as_slice(), 1, cs.len());
                    assert(rest@ =~= line@.drop_first());
                    string_from_chars(rest.as_slice())
                } else {
                    owned(line)
                }
            },
            IndentStyle::Spaces(width) => {
                let mut end: usize = 0;
                assert(line@.skip(0) =~= line@);
                while end < cs.len() && end < width && cs[end] == ' '
                    invariant
                        cs@ == line@,
                        end <= cs@.len(),
                        end <= width,
                        leading_spaces(line@, width as int) == end + leading_spaces(line@.skip(end as int), width - end),
                    decreases cs@.len() - end,
                {
                    assert(line@.skip(end as int).drop_first() =~= line@.skip(end + 1));
                    end += 1;
                }
                assert(leading_spaces(line@.skip(end as int), width - end) == 0);
                let rest = crate::find_in_files::copy_range(cs.as_slice(), end, cs.len());
                assert(rest@ =~= line@.skip(end as int));
                string_from_chars(rest.as_slice())
            },
        }
    }

    /// Indents every line in the selection by one level.
    pub fn indent(&self, lines: &[String]) -> (r: Vec<String>)
        ensures
            r@.len() == lines@.len(),
            forall|i: int| 0 <= i < lines@.len() ==> #[trigger] r@[i]@ == indented(self.style_view(), lines@[i]@),
    {
        let mut out: Vec<String> = Vec::new();
        let mut i: usize = 0;
        while i < lines.len()
            invariant
                i <= lines@.len(),
                out@.len() == i,
                forall|k: int| 0 <= k < i ==> #[trigger] out@[k]@ == indented(self.style_view(), lines@[k]@),
            decreases lines@.len() - i,
        {
            out.push(self.indent_line(lines[i].as_str()));
            i += 1;
        }
        out
    }

    /// Unindents every line in the selection by one level.
    pub fn unindent(&self, lines: &[String]) -> (r: Vec<String>)
        ensures
            r@.len() == lines@.len(),
            forall|i: int| 0 <= i < lines@.len() ==> #[trigger] r@[i]@ == unindented(self.style_view(), lines@[i]@),
    {
        let mut out: Vec<String> = Vec::new();
        let mut i: usize = 0;
        while i < lines.len()
            invariant
                i <= lines@.len(),
                out@.len() == i,
                forall|k: int| 0 <= k < i ==> #[trigger] out@[k]@ == unindented(self.style_view(), lines@[k]@),
            decreases lines@.len() - i,
        {
            out.push(self.unindent_line(lines[i].as_str()));
            i += 1;
        }
        out
    }
}

/// Unindenting an indented line gives the line back, in either style.
pub proof fn law_unindent_undoes_indent(style: IndentStyle, line: Seq<char>)
    ensures
        unindented(style, indented(style, line)) == line,
{
    match style {
        IndentStyle::Tabs => {
            if line.len() > 0 {
                assert((seq!['\t'] + line).drop_first() =~= line);
            }
        },
        IndentStyle::Spaces(w) => {
            if line.len() == 0 {
                assert(line.skip(leading_spaces(line, w as int)) =~= line);
            } else {
                let ind = unit_chars(style) + line;
                lemma_leading_spaces_prefix(line, w as int);
                assert(ind.skip(w as int) =~= line);
            }
        },
    }
}

/// `w` spaces in front of a line count as exactly `w` leading spaces when at
/// most `w` are counted.
pub proof fn lemma_leading_spaces_prefix(line: Seq<char>, w: int)
    requires
        w >= 0,
    ensures
        leading_spaces(Seq::new(w as nat, |i: int| ' ') + line, w) == w,
    decreases w,
{
    let s = Seq::new(w as nat, |i: int| ' ') + line;
    if w > 0 {
        assert(s.drop_first() =~= Seq::new((w - 1) as nat, |i: int| ' ') + line);
        lemma_leading_spaces_prefix(line, w - 1);
    }
}

} // verus!
