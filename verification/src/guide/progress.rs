//! A progress bar for iteration: a growing row of stars padded to the
//! iterator's bound and wrapped in brackets.

use vstd::prelude::*;

use crate::text::{spec_repeat, repeat_char};

verus! {

/// The rendered bar: the stars so far, padding up to the bound, and the
/// brackets around them when both are configured.
pub open spec fn spec_render(
    index: int,
    bound: Option<usize>,
    brackets: Option<(char, char)>,
) -> Seq<char> {
    let stars = spec_repeat('*', index);
    match bound {
        None => stars,
        Some(b) => {
            let spacing = if index <= b {
                b - index
            } else {
                0
            };
            let body = stars + spec_repeat(' ', spacing);
            match brackets {
                None => body,
                Some(p) => seq![p.0] + body + seq![p.1],
            }
        },
    }
}

/// Progress display for an iteration: tracks how many steps have been
/// taken against an optional bound.
#[derive(Debug)]
pub struct ProgressBar {
    index: usize,
    bound: Option<usize>,
    brackets: Option<(char, char)>,
}

impl ProgressBar {
    /// The number of steps taken.
    pub closed spec fn spec_index(self) -> int {
        self.index as int
    }

    /// The configured bound.
    pub closed spec fn spec_bound(self) -> Option<usize> {
        self.bound
    }

    /// The configured brackets.
    pub closed spec fn spec_brackets(self) -> Option<(char, char)> {
        self.brackets
    }

    /// Create a progress bar for an iteration of `len` steps.
    pub fn new(len: usize) -> (p: ProgressBar)
        ensures
            p.spec_index() == 0,
            p.spec_bound() == Some(len),
            p.spec_brackets() == Some(('[', ']')),
    {
        ProgressBar { index: 0, bound: Some(len), brackets: Some(('[', ']')) }
    }

    /// Create a progress bar for an unbounded iteration.
    pub fn new_unbounded() -> (p: ProgressBar)
        ensures
            p.spec_index() == 0,
            p.spec_bound() is None,
            p.spec_brackets() is None,
    {
        ProgressBar { index: 0, bound: None, brackets: None }
    }

    /// Takes one step.
    pub fn bump(&mut self)
        requires
            old(self).spec_index() < usize::MAX,
        ensures
            final(self).spec_index() == old(self).spec_index() + 1,
            final(self).spec_bound() == old(self).spec_bound(),
            final(self).spec_brackets() == old(self).spec_brackets(),
    {
        self.index = self.index + 1;
    }

    /// The bar as text, for the caller to print.
    pub fn render(&self) -> (s: String)
        ensures
            s@ == spec_render(self.spec_index(), self.spec_bound(), self.spec_brackets()),
    {
        let stars = repeat_char('*', self.index);
        match self.bound {
            None => stars,
            Some(bound) => {
                let spacing = if self.index <= bound {
                    bound - self.index
                } else {
                    0
                };
                let spaces = repeat_char(' ', spacing);
                let mut out = String::new();
                match self.brackets {
                    None => {
                        out.append(stars.as_str());
                        out.append(spaces.as_str());
                    },
                    Some(brackets) => {
                        let open_mark = repeat_char(brackets.0, 1);
                        let close_mark = repeat_char(brackets.1, 1);
                        out.append(open_mark.as_str());
                        out.append(stars.as_str());
                        out.append(spaces.as_str());
                        out.append(close_mark.as_str());
                        proof {
                            assert(spec_repeat(brackets.0, 0) =~= Seq::<char>::empty());
                            assert(spec_repeat(brackets.1, 0) =~= Seq::<char>::empty());
                            assert(spec_repeat(brackets.0, 1) =~= seq![brackets.0]);
                            assert(spec_repeat(brackets.1, 1) =~= seq![brackets.1]);
                        }
                    },
                }
                proof {
                    assert(out@ =~= spec_render(
                        self.spec_index(),
                        self.spec_bound(),
                        self.spec_brackets(),
                    ));
                }
                out
            },
        }
    }
}

} // verus!
