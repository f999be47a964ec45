//! A lightweight lexer for body snippets: it finds the spans of the
//! lexical tokens of a source fragment, skipping whitespace and
//! comments, without any semantic analysis.  A fragment it cannot handle
//! (an unterminated string or block comment) fails as a whole, and the
//! body is then skipped for token-correlated configurations.

use vstd::prelude::*;

use crate::span::Span;

verus! {

/// Whether a character is skipped between tokens.
pub open spec fn lex_ws(c: char) -> bool {
    c == ' ' || c == '\t' || c == '\r' || c == '\n'
}

/// Whether a character continues a word token: letters, digits and
/// underscores form maximal runs.
pub open spec fn word_char(c: char) -> bool {
    ('a' <= c && c <= 'z') || ('A' <= c && c <= 'Z') || ('0' <= c && c <= '9') || c == '_'
}

/// The end of the word starting at `pos`: the first later position
/// holding no word character.
pub open spec fn spec_word_end(s: Seq<char>, pos: int) -> int
    decreases s.len() - pos,
{
    if pos < 0 || pos >= s.len() || !word_char(s[pos]) {
        pos
    } else {
        spec_word_end(s, pos + 1)
    }
}

/// The position just past the newline ending a line comment, or the
/// length.
pub open spec fn spec_line_end(s: Seq<char>, pos: int) -> int
    decreases s.len() - pos,
{
    if pos < 0 || pos >= s.len() {
        s.len() as int
    } else if s[pos] == '\n' {
        pos
    } else {
        spec_line_end(s, pos + 1)
    }
}

/// The position of the closing quote of a string literal scanned from
/// `pos`, honouring backslash escapes, or `None` when the literal never
/// closes.
pub open spec fn spec_str_end(s: Seq<char>, pos: int) -> Option<int>
    decreases s.len() - pos,
{
    if pos < 0 || pos >= s.len() {
        None
    } else if s[pos] == '"' {
        Some(pos)
    } else if s[pos] == '\\' {
        if pos + 1 < s.len() {
            spec_str_end(s, pos + 2)
        } else {
            None
        }
    } else {
        spec_str_end(s, pos + 1)
    }
}

/// The position just past the `*/` closing a block comment scanned from
/// `pos`, or `None` when the comment never closes.
pub open spec fn spec_block_end(s: Seq<char>, pos: int) -> Option<int>
    decreases s.len() - pos,
{
    if pos < 0 || pos + 1 >= s.len() {
        None
    } else if s[pos] == '*' && s[pos + 1] == '/' {
        Some(pos + 2)
    } else {
        spec_block_end(s, pos + 1)
    }
}

proof fn lemma_word_end_bounds(s: Seq<char>, pos: int)
    requires
        0 <= pos <= s.len(),
    ensures
        pos <= spec_word_end(s, pos) <= s.len(),
    decreases s.len() - pos,
{
    if pos < s.len() && word_char(s[pos]) {
        lemma_word_end_bounds(s, pos + 1);
    }
}

proof fn lemma_line_end_bounds(s: Seq<char>, pos: int)
    requires
        0 <= pos <= s.len(),
    ensures
        pos <= spec_line_end(s, pos) <= s.len(),
    decreases s.len() - pos,
{
    if pos < s.len() && s[pos] != '\n' {
        lemma_line_end_bounds(s, pos + 1);
    }
}

proof fn lemma_str_end_bounds(s: Seq<char>, pos: int)
    requires
        0 <= pos <= s.len(),
    ensures
        match spec_str_end(s, pos) {
            Some(e) => pos <= e < s.len(),
            None => true,
        },
    decreases s.len() - pos,
{
    if 0 <= pos < s.len() {
        if s[pos] == '\\' && pos + 1 < s.len() {
            lemma_str_end_bounds(s, pos + 2);
        } else if s[pos] != '"' {
            lemma_str_end_bounds(s, pos + 1);
        }
    }
}

proof fn lemma_block_end_bounds(s: Seq<char>, pos: int)
    requires
        0 <= pos <= s.len(),
    ensures
        match spec_block_end(s, pos) {
            Some(e) => pos + 2 <= e <= s.len(),
            None => true,
        },
    decreases s.len() - pos,
{
    if 0 <= pos && pos + 1 < s.len() && !(s[pos] == '*' && s[pos + 1] == '/') {
        lemma_block_end_bounds(s, pos + 1);
    }
}

/// The token spans of the fragment from `pos` on, or `None` when the
/// fragment cannot be lexed.  Whitespace and comments separate tokens; a
/// token is a maximal word, a whole string literal, or one other
/// character.
pub open spec fn spec_lex(s: Seq<char>, pos: int) -> Option<Seq<Span>>
    decreases s.len() - pos,
    via spec_lex_decreases
{
    if pos < 0 || pos >= s.len() {
        Some(Seq::empty())
    } else {
        let c = s[pos];
        if lex_ws(c) {
            spec_lex(s, pos + 1)
        } else if c == '/' && pos + 1 < s.len() && s[pos + 1] == '/' {
            spec_lex(s, spec_line_end(s, pos + 2))
        } else if c == '/' && pos + 1 < s.len() && s[pos + 1] == '*' {
            match spec_block_end(s, pos + 2) {
                Some(e) => spec_lex(s, e),
                None => None,
            }
        } else if c == '"' {
            match spec_str_end(s, pos + 1) {
                Some(e) => match spec_lex(s, e + 1) {
                    Some(rest) => Some(
                        seq![Span { lo: pos as usize, hi: (e + 1) as usize }] + rest,
                    ),
                    None => None,
                },
                None => None,
            }
        } else if word_char(c) {
            let e = spec_word_end(s, pos + 1);
            match spec_lex(s, e) {
                Some(rest) => Some(seq![Span { lo: pos as usize, hi: e as usize }] + rest),
                None => None,
            }
        } else {
            match spec_lex(s, pos + 1) {
                Some(rest) => Some(
                    seq![Span { lo: pos as usize, hi: (pos + 1) as usize }] + rest,
                ),
                None => None,
            }
        }
    }
}

#[via_fn]
proof fn spec_lex_decreases(s: Seq<char>, pos: int) {
    if 0 <= pos < s.len() {
        if pos + 2 <= s.len() {
            lemma_line_end_bounds(s, pos + 2);
            lemma_block_end_bounds(s, pos + 2);
        }
        lemma_str_end_bounds(s, pos + 1);
        lemma_word_end_bounds(s, pos + 1);
    }
}

/// Every token of a lex lies within the fragment past `pos`, is
/// non-empty, and the tokens are in strictly increasing disjoint order.
pub proof fn lemma_lex_sorted(s: Seq<char>, pos: int)
    requires
        0 <= pos,
        s.len() <= usize::MAX,
        spec_lex(s, pos) is Some,
    ensures
        forall|i: int|
            0 <= i < spec_lex(s, pos)->0.len() ==> pos <= (#[trigger] spec_lex(s, pos)->0[i]).lo
                && spec_lex(s, pos)->0[i].lo < spec_lex(s, pos)->0[i].hi && spec_lex(
                s,
                pos,
            )->0[i].hi <= s.len(),
        forall|i: int, j: int|
            0 <= i < j < spec_lex(s, pos)->0.len() ==> (#[trigger] spec_lex(s, pos)->0[i]).hi <= (
            #[trigger] spec_lex(s, pos)->0[j]).lo,
    decreases s.len() - pos,
{
    if pos >= s.len() {
    } else {
        let c = s[pos];
        let toks = spec_lex(s, pos)->0;
        if lex_ws(c) {
            lemma_lex_sorted(s, pos + 1);
        } else if c == '/' && pos + 1 < s.len() && s[pos + 1] == '/' {
            lemma_line_end_bounds(s, pos + 2);
            lemma_lex_sorted(s, spec_line_end(s, pos + 2));
        } else if c == '/' && pos + 1 < s.len() && s[pos + 1] == '*' {
            lemma_block_end_bounds(s, pos + 2);
            lemma_lex_sorted(s, spec_block_end(s, pos + 2)->0);
        } else if c == '"' {
            lemma_str_end_bounds(s, pos + 1);
            let e = spec_str_end(s, pos + 1)->0;
            lemma_lex_sorted(s, e + 1);
            assert(forall|i: int|
                1 <= i < toks.len() ==> toks[i] == spec_lex(s, e + 1)->0[i - 1]);
        } else if word_char(c) {
            lemma_word_end_bounds(s, pos + 1);
            let e = spec_word_end(s, pos + 1);
            lemma_lex_sorted(s, e);
            assert(forall|i: int| 1 <= i < toks.len() ==> toks[i] == spec_lex(s, e)->0[i - 1]);
        } else {
            lemma_lex_sorted(s, pos + 1);
            assert(forall|i: int|
                1 <= i < toks.len() ==> toks[i] == spec_lex(s, pos + 1)->0[i - 1]);
        }
    }
}

fn word_end(v: &Vec<char>, pos: usize) -> (r: usize)
    requires
        pos <= v@.len(),
    ensures
        r as int == spec_word_end(v@, pos as int),
        pos <= r <= v@.len(),
{
    let mut i = pos;
    while i < v.len()
        invariant
            pos <= i <= v@.len(),
            spec_word_end(v@, pos as int) == spec_word_end(v@, i as int),
        decreases v@.len() - i,
    {
        let c = v[i];
        if !(('a' <= c && c <= 'z') || ('A' <= c && c <= 'Z') || ('0' <= c && c <= '9') || c
            == '_') {
            return i;
        }
        i = i + 1;
    }
    i
}

fn line_end(v: &Vec<char>, pos: usize) -> (r: usize)
    requires
        pos <= v@.len(),
    ensures
        r as int == spec_line_end(v@, pos as int),
        pos <= r <= v@.len(),
{
    let mut i = pos;
    while i < v.len()
        invariant
            pos <= i <= v@.len(),
            spec_line_end(v@, pos as int) == spec_line_end(v@, i as int),
        decreases v@.len() - i,
    {
        if v[i] == '\n' {
            return i;
        }
        i = i + 1;
    }
    i
}

fn str_end(v: &Vec<char>, pos: usize) -> (r: Option<usize>)
    requires
        pos <= v@.len(),
    ensures
        match r {
            Some(e) => Some(e as int) == spec_str_end(v@, pos as int) && pos <= e < v@.len(),
            None => spec_str_end(v@, pos as int) is None,
        },
    decreases v@.len() - pos,
{
    if pos >= v.len() {
        return None;
    }
    let c = v[pos];
    if c == '"' {
        Some(pos)
    } else if c == '\\' {
        if pos + 1 < v.len() {
            str_end(v, pos + 2)
        } else {
            None
        }
    } else {
        str_end(v, pos + 1)
    }
}

fn block_end(v: &Vec<char>, pos: usize) -> (r: Option<usize>)
    requires
        pos <= v@.len(),
    ensures
        match r {
            Some(e) => Some(e as int) == spec_block_end(v@, pos as int) && pos + 2 <= e
                <= v@.len(),
            None => spec_block_end(v@, pos as int) is None,
        },
    decreases v@.len() - pos,
{
    if v.len() < 2 || pos >= v.len() - 1 {
        return None;
    }
    if v[pos] == '*' && v[pos + 1] == '/' {
        Some(pos + 2)
    } else {
        block_end(v, pos + 1)
    }
}

/// Lexes a body snippet into its token spans, relative to the snippet's
/// start; `None` when the snippet holds an unterminated string literal or
/// block comment.
pub fn tokenize(v: &Vec<char>) -> (r: Option<Vec<Span>>)
    ensures
        match r {
            Some(toks) => spec_lex(v@, 0) == Some(toks@),
            None => spec_lex(v@, 0) is None,
        },
{
    let acc: Vec<Span> = Vec::new();
    proof {
        assert(acc@ + spec_lex(v@, 0)->0 =~= spec_lex(v@, 0)->0);
    }
    tokenize_rec(v, 0, acc)
}

fn tokenize_rec(v: &Vec<char>, pos: usize, acc: Vec<Span>) -> (r: Option<Vec<Span>>)
    requires
        pos <= v@.len(),
    ensures
        match r {
            Some(toks) => spec_lex(v@, pos as int) is Some && toks@ == acc@ + spec_lex(
                v@,
                pos as int,
            )->0,
            None => spec_lex(v@, pos as int) is None,
        },
    decreases v@.len() - pos,
{
    if pos >= v.len() {
        proof {
            assert(acc@ + spec_lex(v@, pos as int)->0 =~= acc@);
        }
        return Some(acc);
    }
    let c = v[pos];
    if c == ' ' || c == '\t' || c == '\r' || c == '\n' {
        tokenize_rec(v, pos + 1, acc)
    } else if c == '/' && pos + 1 < v.len() && v[pos + 1] == '/' {
        let e = line_end(v, pos + 2);
        tokenize_rec(v, e, acc)
    } else if c == '/' && pos + 1 < v.len() && v[pos + 1] == '*' {
        match block_end(v, pos + 2) {
            Some(e) => tokenize_rec(v, e, acc),
            None => None,
        }
    } else if c == '"' {
        match str_end(v, pos + 1) {
            Some(e) => {
                let mut acc2 = acc;
                let ghost prev = acc2@;
                acc2.push(Span { lo: pos, hi: e + 1 });
                let r = tokenize_rec(v, e + 1, acc2);
                proof {
                    if r is Some {
                        assert(r->0@ =~= acc@ + spec_lex(v@, pos as int)->0);
                    }
                }
                r
            },
            None => None,
        }
    } else if ('a' <= c && c <= 'z') || ('A' <= c && c <= 'Z') || ('0' <= c && c <= '9') || c
        == '_' {
        let e = word_end(v, pos + 1);
        let mut acc2 = acc;
        acc2.push(Span { lo: pos, hi: e });
        proof {
            lemma_word_end_bounds(v@, pos + 1);
        }
        let r = tokenize_rec(v, e, acc2);
        proof {
            if r is Some {
                assert(r->0@ =~= acc@ + spec_lex(v@, pos as int)->0);
            }
        }
        r
    } else {
        let mut acc2 = acc;
        acc2.push(Span { lo: pos, hi: pos + 1 });
        let r = tokenize_rec(v, pos + 1, acc2);
        proof {
            if r is Some {
                assert(r->0@ =~= acc@ + spec_lex(v@, pos as int)->0);
            }
        }
        r
    }
}

} // verus!
