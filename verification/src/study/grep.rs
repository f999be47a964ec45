//! The text-processing half of a grep front end: the raw tool output is
//! trimmed, split into lines, and lines reported from under a directory
//! prefix are shortened to the text behind the file name.

use vstd::prelude::*;

use crate::study::url::{find_char, idx_of, lemma_idx_of_bounds, slice_chars};
use crate::text::{chars_of, string_of};

verus! {

/// Whether a character counts as trimmable whitespace.
pub open spec fn is_ws(c: char) -> bool {
    c == ' ' || c == '\t' || c == '\r' || c == '\n'
}

/// The number of leading whitespace characters.
pub open spec fn ws_prefix(s: Seq<char>) -> int
    decreases s.len(),
{
    if s.len() > 0 && is_ws(s[0]) {
        1 + ws_prefix(s.drop_first())
    } else {
        0
    }
}

/// The number of trailing whitespace characters.
pub open spec fn ws_suffix(s: Seq<char>) -> int
    decreases s.len(),
{
    if s.len() > 0 && is_ws(s.last()) {
        1 + ws_suffix(s.drop_last())
    } else {
        0
    }
}

/// The text with leading and trailing whitespace removed.
pub open spec fn spec_trim(s: Seq<char>) -> Seq<char> {
    if ws_prefix(s) == s.len() {
        Seq::empty()
    } else {
        s.subrange(ws_prefix(s), s.len() - ws_suffix(s))
    }
}

proof fn lemma_ws_prefix_bounds(s: Seq<char>)
    ensures
        0 <= ws_prefix(s) <= s.len(),
        forall|i: int| 0 <= i < ws_prefix(s) ==> is_ws(#[trigger] s[i]),
        ws_prefix(s) < s.len() ==> !is_ws(s[ws_prefix(s)]),
    decreases s.len(),
{
    if s.len() > 0 && is_ws(s[0]) {
        lemma_ws_prefix_bounds(s.drop_first());
        assert forall|i: int| 0 <= i < ws_prefix(s) implies is_ws(#[trigger] s[i]) by {
            if i > 0 {
                assert(s.drop_first()[i - 1] == s[i]);
                assert(is_ws(s.drop_first()[i - 1]));
            }
        }
    }
}

proof fn lemma_ws_suffix_bounds(s: Seq<char>)
    ensures
        0 <= ws_suffix(s) <= s.len(),
        forall|i: int| s.len() - ws_suffix(s) <= i < s.len() ==> is_ws(#[trigger] s[i]),
        ws_suffix(s) < s.len() ==> !is_ws(s[s.len() - ws_suffix(s) - 1]),
    decreases s.len(),
{
    if s.len() > 0 && is_ws(s.last()) {
        lemma_ws_suffix_bounds(s.drop_last());
        assert forall|i: int| s.len() - ws_suffix(s) <= i < s.len() implies is_ws(
            #[trigger] s[i],
        ) by {
            if i < s.len() - 1 {
                assert(s.drop_last()[i] == s[i]);
                assert(is_ws(s.drop_last()[i]));
            }
        }
    }
}

/// The lines of `s` from `pos` on, separated by newlines.
pub open spec fn spec_lines(s: Seq<char>, pos: int) -> Seq<Seq<char>>
    decreases s.len() - pos + 1,
    via spec_lines_decreases
{
    if pos < 0 || pos > s.len() {
        Seq::empty()
    } else {
        let stop = idx_of(s, pos, '\n');
        if stop >= s.len() {
            seq![s.subrange(pos, s.len() as int)]
        } else {
            seq![s.subrange(pos, stop)] + spec_lines(s, stop + 1)
        }
    }
}

#[via_fn]
proof fn spec_lines_decreases(s: Seq<char>, pos: int) {
    if 0 <= pos <= s.len() {
        lemma_idx_of_bounds(s, pos, '\n');
    }
}

/// Whether `prefix` is a prefix of `line`.
pub open spec fn spec_starts_with(line: Seq<char>, prefix: Seq<char>) -> bool {
    line.len() >= prefix.len() && line.subrange(0, prefix.len() as int) == prefix
}

/// The cleaned form of one line: a line starting with the prefix loses
/// everything up to and including its first colon.
pub open spec fn spec_clean_line(line: Seq<char>, prefix: Seq<char>) -> Seq<char> {
    if spec_starts_with(line, prefix) && idx_of(line, 0, ':') < line.len() {
        line.skip(idx_of(line, 0, ':') + 1)
    } else {
        line
    }
}

/// The cleaned lines of the trimmed tool output.
pub open spec fn spec_grep_lines(text: Seq<char>, prefix: Seq<char>) -> Seq<Seq<char>> {
    spec_lines(spec_trim(text), 0).map_values(|line: Seq<char>| spec_clean_line(line, prefix))
}

/// Decides whether `prefix` is a prefix of `line`.
fn starts_with_chars(line: &Vec<char>, prefix: &Vec<char>) -> (r: bool)
    ensures
        r == spec_starts_with(line@, prefix@),
{
    let np = prefix.len();
    if line.len() < np {
        return false;
    }
    for i in 0..np
        invariant
            np == prefix@.len(),
            np <= line@.len(),
            forall|j: int| 0 <= j < i ==> line@[j] == prefix@[j],
    {
        if line[i] != prefix[i] {
            proof {
                assert(line@.subrange(0, np as int)[i as int] != prefix@[i as int]);
            }
            return false;
        }
    }
    proof {
        assert(line@.subrange(0, np as int) =~= prefix@);
    }
    true
}

/// Trims the whitespace off both ends of the characters.
fn trim_chars(v: &Vec<char>) -> (r: Vec<char>)
    ensures
        r@ == spec_trim(v@),
{
    let n = v.len();
    proof {
        lemma_ws_prefix_bounds(v@);
        lemma_ws_suffix_bounds(v@);
    }
    let mut start: usize = 0;
    while start < n
        invariant
            n == v@.len(),
            start <= n,
            forall|i: int| 0 <= i < start ==> is_ws(#[trigger] v@[i]),
        ensures
            start <= n,
            forall|i: int| 0 <= i < start ==> is_ws(#[trigger] v@[i]),
            start < n ==> !is_ws(v@[start as int]),
        decreases n - start,
    {
        if !is_ws_exec(v[start]) {
            break ;
        }
        start = start + 1;
    }
    proof {
        lemma_ws_prefix_bounds(v@);
        assert(start == ws_prefix(v@)) by {
            if start < ws_prefix(v@) {
                assert(is_ws(v@[start as int]));
            }
            if start > ws_prefix(v@) {
                assert(is_ws(v@[ws_prefix(v@)]));
            }
        }
    }
    if start >= n {
        proof {
            assert(ws_prefix(v@) == n);
        }
        return Vec::new();
    }
    let mut end: usize = n;
    while end > start
        invariant
            n == v@.len(),
            start < n,
            start <= end <= n,
            forall|i: int| end <= i < n ==> is_ws(#[trigger] v@[i]),
        ensures
            start <= end <= n,
            forall|i: int| end <= i < n ==> is_ws(#[trigger] v@[i]),
            end > start ==> !is_ws(v@[end - 1]),
        decreases end,
    {
        if !is_ws_exec(v[end - 1]) {
            break ;
        }
        end = end - 1;
    }
    proof {
        lemma_ws_suffix_bounds(v@);
        assert(!is_ws(v@[start as int]));
        assert(end > start) by {
            if end == start {
                assert(is_ws(v@[start as int]));
            }
        }
        assert(end == n - ws_suffix(v@)) by {
            if end < n - ws_suffix(v@) {
                assert(is_ws(v@[n - ws_suffix(v@) - 1]));
            }
            if end > n - ws_suffix(v@) {
                assert(is_ws(v@[end - 1]));
            }
        }
    }
    let r = slice_chars(v, start, end);
    proof {
        assert(r@ =~= spec_trim(v@));
    }
    r
}

fn is_ws_exec(c: char) -> (r: bool)
    ensures
        r == is_ws(c),
{
    c == ' ' || c == '\t' || c == '\r' || c == '\n'
}

/// Shortens the lines of the raw tool output: the output is trimmed and
/// split into lines, and a line starting with `prefix` keeps only the
/// text behind its first colon.
pub fn clean_output(text: &str, prefix: &str) -> (r: Vec<String>)
    ensures
        r@.map_values(|line: String| line@) == spec_grep_lines(text@, prefix@),
{
    let tv = chars_of(text);
    let pv = chars_of(prefix);
    let trimmed = trim_chars(&tv);
    let n = trimmed.len();
    let mut out: Vec<String> = Vec::new();
    let mut pos: usize = 0;
    proof {
        assert(out@.map_values(|line: String| line@) + spec_lines(trimmed@, 0).map_values(
            |line: Seq<char>| spec_clean_line(line, prefix@),
        ) =~= spec_grep_lines(text@, prefix@));
    }
    loop
        invariant_except_break
            out@.map_values(|line: String| line@) + spec_lines(trimmed@, pos as int).map_values(
                |line: Seq<char>| spec_clean_line(line, prefix@),
            ) =~= spec_grep_lines(text@, prefix@),
        invariant
            n == trimmed@.len(),
            pos <= n,
            pv@ == prefix@,
        ensures
            out@.map_values(|line: String| line@) =~= spec_grep_lines(text@, prefix@),
        decreases n - pos + 1,
    {
        let stop = find_char(&trimmed, pos, '\n');
        let line = slice_chars(&trimmed, pos, stop);
        let cleaned = clean_line(&line, &pv);
        let ghost prev = out@;
        out.push(cleaned);
        proof {
            assert(out@.map_values(|line2: String| line2@) =~= prev.map_values(
                |line2: String| line2@,
            ).push(spec_clean_line(trimmed@.subrange(pos as int, stop as int), prefix@)));
            if stop >= n {
                assert(spec_lines(trimmed@, pos as int) =~= seq![
                    trimmed@.subrange(pos as int, n as int),
                ]);
            } else {
                assert(spec_lines(trimmed@, pos as int) =~= seq![
                    trimmed@.subrange(pos as int, stop as int),
                ] + spec_lines(trimmed@, stop + 1));
            }
        }
        if stop >= n {
            proof {
                assert(out@.map_values(|line2: String| line2@) =~= spec_grep_lines(
                    text@,
                    prefix@,
                ));
            }
            break ;
        }
        pos = stop + 1;
    }
    out
}

/// Cleans one line.
fn clean_line(line: &Vec<char>, prefix: &Vec<char>) -> (r: String)
    ensures
        r@ == spec_clean_line(line@, prefix@),
{
    proof {
        lemma_idx_of_bounds(line@, 0, ':');
    }
    if starts_with_chars(line, prefix) {
        let ci = find_char(line, 0, ':');
        if ci < line.len() {
            let rest = slice_chars(line, ci + 1, line.len());
            proof {
                assert(rest@ =~= line@.skip(ci + 1));
            }
            return string_of(&rest);
        }
    }
    string_of(line)
}

} // verus!
