//! The indentation style shared by the script editor's indenting features.

use vstd::prelude::*;

verus! {

/// One level of indentation: a tab, or a number of spaces.
#[derive(Debug, Clone, Copy, PartialEq, Eq, Structural)]
pub enum IndentStyle {
    /// One tab per level.
    Tabs,
    /// The given number of spaces per level.
    Spaces(usize),
}

/// The characters of one indentation level.
pub open spec fn unit_chars(style: IndentStyle) -> Seq<char> {
    match style {
        IndentStyle::Tabs => seq!['\t'],
        IndentStyle::Spaces(w) => Seq::new(w as nat, |i: int| ' '),
    }
}

impl IndentStyle {
    /// The text of one indentation level.
    pub fn unit(&self) -> (r: String)
        ensures
            r@ == unit_chars(*self),
    {
        let mut s = String::new();
        match self {
            IndentStyle::Tabs => {
                crate::text::push_char(&mut s, '\t');
                assert(s@ =~= seq!['\t']);
            },
            IndentStyle::Spaces(w) => {
                let mut i: usize = 0;
                while i < *w
                    invariant
                        i <= *w,
                        s@ == Seq::new(i as nat, |k: int| ' '),
                    decreases *w - i,
                {
                    crate::text::push_char(&mut s, ' ');
                    i += 1;
                    assert(s@ =~= Seq::new(i as nat, |k: int| ' '));
                }
            },
        }
        s
    }
}

} // verus!
