//! A tiny regular-expression matcher over characters, literals,
//! concatenation, first-match alternation and bounded repetition.

use vstd::prelude::*;

use crate::text::chars_of;

verus! {

pub enum Regex {
    Char(char),
    And(Box<Regex>, Box<Regex>),
    Or(Box<Regex>, Box<Regex>),
    Repeat(Box<Regex>, usize),
}

/// Where matching `r` from position `pos` of `chars` ends, or `None` when
/// it fails there.  Alternation commits to its first matching arm; there
/// is no backtracking across concatenation.
pub open spec fn spec_match(r: Regex, chars: Seq<char>, pos: int) -> Option<int>
    decreases r, 0int,
{
    match r {
        Regex::Char(c) => if 0 <= pos < chars.len() && chars[pos] == c {
            Some(pos + 1)
        } else {
            None
        },
        Regex::And(r1, r2) => match spec_match(*r1, chars, pos) {
            Some(p) => spec_match(*r2, chars, p),
            None => None,
        },
        Regex::Or(r1, r2) => match spec_match(*r1, chars, pos) {
            Some(p) => Some(p),
            None => spec_match(*r2, chars, pos),
        },
        Regex::Repeat(r1, n) => spec_match_repeat(*r1, n as int, chars, pos),
    }
}

/// Where matching `r` exactly `n` times in sequence from `pos` ends.
pub open spec fn spec_match_repeat(r: Regex, n: int, chars: Seq<char>, pos: int) -> Option<int>
    decreases r, n + 1,
{
    if n <= 0 {
        Some(pos)
    } else {
        match spec_match(r, chars, pos) {
            Some(p) => spec_match_repeat(r, n - 1, chars, p),
            None => None,
        }
    }
}

impl Regex {
    /// Whether the whole string matches this expression.
    pub fn matches(&self, s: &str) -> (r: bool)
        ensures
            r == (spec_match(*self, s@, 0) == Some(s@.len() as int)),
    {
        let chars = chars_of(s);
        let mut pos: usize = 0;
        let ok = self.matches_chars(&chars, &mut pos);
        ok && pos == chars.len()
    }

    /// Matches this expression against `chars` starting at `*pos`,
    /// advancing `*pos` past the match on success and restoring it on
    /// failure.
    pub fn matches_chars(&self, chars: &Vec<char>, pos: &mut usize) -> (ok: bool)
        requires
            *old(pos) <= chars@.len(),
        ensures
            ok == (spec_match(*self, chars@, *old(pos) as int) is Some),
            ok ==> Some(*final(pos) as int) == spec_match(*self, chars@, *old(pos) as int),
            !ok ==> *final(pos) == *old(pos),
            *final(pos) <= chars@.len(),
        decreases *self,
    {
        match self {
            Regex::Char(c) => {
                if *pos < chars.len() && chars[*pos] == *c {
                    *pos = *pos + 1;
                    true
                } else {
                    false
                }
            },
            Regex::And(r1, r2) => {
                let saved = *pos;
                if r1.matches_chars(chars, pos) {
                    if r2.matches_chars(chars, pos) {
                        true
                    } else {
                        *pos = saved;
                        false
                    }
                } else {
                    false
                }
            },
            Regex::Or(r1, r2) => {
                if r1.matches_chars(chars, pos) {
                    true
                } else {
                    r2.matches_chars(chars, pos)
                }
            },
            Regex::Repeat(r1, n) => {
                let saved = *pos;
                let count = *n;
                let mut i: usize = 0;
                let mut failed = false;
                while i < count
                    invariant
                        *self == Regex::Repeat(*r1, count),
                        *pos <= chars@.len(),
                        i <= count,
                        !failed ==> spec_match_repeat(
                            **r1,
                            count as int,
                            chars@,
                            saved as int,
                        ) == spec_match_repeat(**r1, count - i, chars@, *pos as int),
                        failed ==> spec_match_repeat(
                            **r1,
                            count as int,
                            chars@,
                            saved as int,
                        ) is None,
                    ensures
                        failed == (spec_match_repeat(
                            **r1,
                            count as int,
                            chars@,
                            saved as int,
                        ) is None),
                        !failed ==> spec_match_repeat(
                            **r1,
                            count as int,
                            chars@,
                            saved as int,
                        ) == Some(*pos as int),
                        *pos <= chars@.len(),
                    decreases count - i,
                {
                    proof {
                        assert(*self is Repeat);
                        assert(decreases_to!(*self => (*self)->Repeat_0));
                        assert((*self)->Repeat_0 == *r1);
                        assert(decreases_to!(*self => **r1));
                    }
                    if r1.matches_chars(chars, pos) {
                        i = i + 1;
                    } else {
                        failed = true;
                        break ;
                    }
                }
                if failed {
                    *pos = saved;
                    false
                } else {
                    true
                }
            },
        }
    }
}

} // verus!
