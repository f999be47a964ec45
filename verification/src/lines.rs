//! Line-level statistics: mapping character positions and spans to line
//! numbers, collecting the distinct lines a set of spans touches, and the
//! interquartile locality score over relevant lines.

use vstd::prelude::*;

use crate::span::Span;

verus! {

/// The number of newline characters strictly before position `pos`; this
/// is the 0-based line number of the character at `pos`.
pub open spec fn newlines_before(text: Seq<char>, pos: int) -> int
    decreases pos,
{
    if pos <= 0 {
        0
    } else {
        newlines_before(text, pos - 1) + if text[pos - 1] == '\n' {
            1int
        } else {
            0int
        }
    }
}

pub proof fn lemma_newlines_bounds(text: Seq<char>, pos: int)
    requires
        pos >= 0,
    ensures
        0 <= newlines_before(text, pos) <= pos,
    decreases pos,
{
    if pos > 0 {
        lemma_newlines_bounds(text, pos - 1);
    }
}

pub proof fn lemma_newlines_monotone(text: Seq<char>, p1: int, p2: int)
    requires
        0 <= p1 <= p2,
    ensures
        newlines_before(text, p1) <= newlines_before(text, p2),
    decreases p2 - p1,
{
    if p1 < p2 {
        lemma_newlines_monotone(text, p1, p2 - 1);
    }
}

/// The 0-based line number of position `pos` in `text`.
pub fn line_of(text: &Vec<char>, pos: usize) -> (l: usize)
    requires
        pos <= text@.len(),
    ensures
        l == newlines_before(text@, pos as int),
{
    let mut cnt: usize = 0;
    for p in 0..pos
        invariant
            pos <= text@.len(),
            cnt == newlines_before(text@, p as int),
            cnt <= p,
    {
        if text[p] == '\n' {
            cnt = cnt + 1;
        }
    }
    cnt
}

/// The first line a span touches.
pub open spec fn span_first_line(text: Seq<char>, s: Span) -> int {
    newlines_before(text, s.lo as int)
}

/// The last line a span touches (for an empty span, its own line).
pub open spec fn span_last_line(text: Seq<char>, s: Span) -> int {
    if s.hi > s.lo {
        newlines_before(text, s.hi - 1)
    } else {
        newlines_before(text, s.lo as int)
    }
}

/// Whether line `l` lies on one of the given spans.
pub open spec fn line_covered(text: Seq<char>, spans: Seq<Span>, l: int) -> bool {
    exists|i: int|
        0 <= i < spans.len() && span_first_line(text, #[trigger] spans[i]) <= l <= span_last_line(
            text,
            spans[i],
        )
}

/// The first and last line of a span.
pub fn span_lines(text: &Vec<char>, s: &Span) -> (r: (usize, usize))
    requires
        s.wf(),
        s.hi <= text@.len(),
    ensures
        r.0 == span_first_line(text@, *s),
        r.1 == span_last_line(text@, *s),
        r.0 <= r.1,
{
    let first = line_of(text, s.lo);
    let last = if s.hi > s.lo {
        line_of(text, s.hi - 1)
    } else {
        line_of(text, s.lo)
    };
    proof {
        if s.hi > s.lo {
            lemma_newlines_monotone(text@, s.lo as int, s.hi - 1);
        }
    }
    (first, last)
}

/// What a correct line collection looks like: `r` lists, in strictly
/// ascending order, exactly the lines touched by one of the spans.
pub open spec fn lines_result_ok(text: Seq<char>, spans: Seq<Span>, r: Seq<usize>) -> bool {
    &&& forall|a: int, b: int| 0 <= a < b < r.len() ==> r[a] < r[b]
    &&& forall|l: usize| r.contains(l) <==> line_covered(text, spans, l as int)
}

/// The distinct lines touched by the given spans, in strictly ascending
/// order.
pub fn collect_lines(text: &Vec<char>, spans: &Vec<Span>) -> (r: Vec<usize>)
    requires
        text@.len() < usize::MAX,
        forall|i: int| 0 <= i < spans@.len() ==> (#[trigger] spans@[i]).wf(),
        forall|i: int| 0 <= i < spans@.len() ==> (#[trigger] spans@[i]).hi <= text@.len(),
    ensures
        lines_result_ok(text@, spans@, r@),
{
    let n = spans.len();
    let mut firsts: Vec<usize> = Vec::new();
    let mut lasts: Vec<usize> = Vec::new();
    let mut max_last: usize = 0;
    for i in 0..n
        invariant
            n == spans@.len(),
            forall|k: int| 0 <= k < spans@.len() ==> (#[trigger] spans@[k]).wf(),
            forall|k: int| 0 <= k < spans@.len() ==> (#[trigger] spans@[k]).hi <= text@.len(),
            firsts@.len() == i,
            lasts@.len() == i,
            forall|k: int|
                0 <= k < i ==> #[trigger] firsts@[k] == span_first_line(text@, spans@[k]),
            forall|k: int| 0 <= k < i ==> #[trigger] lasts@[k] == span_last_line(text@, spans@[k]),
            forall|k: int| 0 <= k < i ==> #[trigger] lasts@[k] <= max_last,
            max_last <= text@.len(),
    {
        let (first, last) = span_lines(text, &spans[i]);
        proof {
            if spans@[i as int].hi > spans@[i as int].lo {
                lemma_newlines_bounds(text@, spans@[i as int].hi - 1);
            } else {
                lemma_newlines_bounds(text@, spans@[i as int].lo as int);
            }
        }
        firsts.push(first);
        lasts.push(last);
        if last > max_last {
            max_last = last;
        }
    }
    let mut out: Vec<usize> = Vec::new();
    let bound = max_last + 1;
    for l in 0..bound
        invariant
            n == spans@.len(),
            bound == max_last + 1,
            firsts@.len() == n,
            lasts@.len() == n,
            forall|k: int|
                0 <= k < n ==> #[trigger] firsts@[k] == span_first_line(text@, spans@[k]),
            forall|k: int| 0 <= k < n ==> #[trigger] lasts@[k] == span_last_line(text@, spans@[k]),
            forall|k: int| 0 <= k < n ==> #[trigger] lasts@[k] <= max_last,
            forall|a: int, b: int| 0 <= a < b < out@.len() ==> out@[a] < out@[b],
            forall|x: usize| out@.contains(x) ==> x < l && line_covered(text@, spans@, x as int),
            forall|x: int| 0 <= x < l && line_covered(text@, spans@, x) ==> out@.contains(
                x as usize,
            ),
    {
        let mut hit = false;
        for k in 0..n
            invariant
                n == spans@.len(),
                firsts@.len() == n,
                lasts@.len() == n,
                forall|kk: int|
                    0 <= kk < n ==> #[trigger] firsts@[kk] == span_first_line(text@, spans@[kk]),
                forall|kk: int|
                    0 <= kk < n ==> #[trigger] lasts@[kk] == span_last_line(text@, spans@[kk]),
                hit ==> line_covered(text@, spans@, l as int),
                !hit ==> forall|kk: int|
                    0 <= kk < k ==> !(span_first_line(text@, #[trigger] spans@[kk]) <= l as int
                        <= span_last_line(text@, spans@[kk])),
        {
            if firsts[k] <= l && l <= lasts[k] {
                proof {
                    assert(span_first_line(text@, spans@[k as int]) <= l as int <= span_last_line(
                        text@,
                        spans@[k as int],
                    ));
                }
                hit = true;
            }
        }
        if hit {
            proof {
                if out@.len() > 0 {
                    assert(out@.contains(out@[out@.len() - 1]));
                }
            }
            let ghost prev = out@;
            out.push(l);
            proof {
                assert(out@[prev.len() as int] == l);
                assert forall|a: int, b: int| 0 <= a < b < out@.len() implies out@[a] < out@[b] by {
                    if b < out@.len() - 1 {
                    } else {
                        assert(out@.contains(out@[a]));
                    }
                }
                assert forall|x: usize| out@.contains(x) implies x < l + 1 && line_covered(
                    text@,
                    spans@,
                    x as int,
                ) by {
                    let w = choose|w: int| 0 <= w < out@.len() && out@[w] == x;
                    if w < prev.len() {
                        assert(prev[w] == x);
                        assert(prev.contains(x));
                    }
                }
                assert forall|x: int|
                    0 <= x < l + 1 && line_covered(text@, spans@, x) implies out@.contains(
                    x as usize,
                ) by {
                    if x < l {
                        assert(prev.contains(x as usize));
                        let w = choose|w: int| 0 <= w < prev.len() && prev[w] == x as usize;
                        assert(out@[w] == x as usize);
                    } else {
                        assert(out@.contains(l));
                    }
                }
            }
        }
    }
    proof {
        assert forall|x: usize| out@.contains(x) implies line_covered(text@, spans@, x as int) by {}
        assert forall|x: usize| line_covered(text@, spans@, x as int) implies out@.contains(x) by {
            let i = choose|i: int|
                0 <= i < spans@.len() && span_first_line(text@, #[trigger] spans@[i])
                    <= x as int <= span_last_line(text@, spans@[i]);
            assert(lasts@[i] <= max_last);
            assert(x < bound);
        }
    }
    out
}

/// How many entries of `s` fall within `[lo, hi]`.
pub open spec fn count_in_range(s: Seq<usize>, lo: int, hi: int) -> int
    decreases s.len(),
{
    if s.len() == 0 {
        0
    } else {
        count_in_range(s.drop_last(), lo, hi) + if lo <= s.last() <= hi {
            1int
        } else {
            0int
        }
    }
}

pub proof fn lemma_count_in_range_bounds(s: Seq<usize>, lo: int, hi: int)
    ensures
        0 <= count_in_range(s, lo, hi) <= s.len(),
    decreases s.len(),
{
    if s.len() > 0 {
        lemma_count_in_range_bounds(s.drop_last(), lo, hi);
    }
}

/// The locality score of a sorted set of relevant lines within a body:
/// the count of all body lines falling inclusively between the relevant
/// lines at ranks `⌊n/4⌋` and `⌊3·n/4⌋`, and 0 when no line is relevant.
pub open spec fn spec_line_iqr(relevant: Seq<usize>, body_lines: Seq<usize>) -> int {
    if relevant.len() == 0 {
        0
    } else {
        count_in_range(
            body_lines,
            relevant[relevant.len() as int / 4] as int,
            relevant[relevant.len() as int * 3 / 4] as int,
        )
    }
}

/// Computes the interquartile locality score of the relevant lines
/// relative to all lines of the body.  Both inputs are sorted ascending;
/// `relevant` holds the distinct relevant lines and `body_lines` every
/// line of the body.
pub fn line_iqr(relevant: &Vec<usize>, body_lines: &Vec<usize>) -> (r: usize)
    ensures
        r == spec_line_iqr(relevant@, body_lines@),
{
    let n = relevant.len();
    if n == 0 {
        return 0;
    }
    let lo_rank = n / 4;
    let hi_rank = ((n as u128) * 3 / 4) as usize;
    proof {
        assert((n as u128) * 3 / 4 == (n as int) * 3 / 4) by (nonlinear_arith);
        assert((n as int) * 3 / 4 < n as int) by (nonlinear_arith)
            requires
                n >= 1,
        ;
    }
    let lo_line = relevant[lo_rank];
    let hi_line = relevant[hi_rank];
    let m = body_lines.len();
    let mut cnt: usize = 0;
    for i in 0..m
        invariant
            m == body_lines@.len(),
            cnt == count_in_range(body_lines@.take(i as int), lo_line as int, hi_line as int),
            cnt <= i,
    {
        proof {
            assert(body_lines@.take(i + 1).drop_last() =~= body_lines@.take(i as int));
            assert(body_lines@.take(i + 1).last() == body_lines@[i as int]);
            lemma_count_in_range_bounds(body_lines@.take(i as int), lo_line as int, hi_line as int);
        }
        if lo_line <= body_lines[i] && body_lines[i] <= hi_line {
            cnt = cnt + 1;
        }
    }
    proof {
        assert(body_lines@.take(m as int) =~= body_lines@);
    }
    cnt
}

/// For an empty relevant-line set the locality score is 0.
pub proof fn lemma_iqr_empty(body_lines: Seq<usize>)
    ensures
        spec_line_iqr(Seq::empty(), body_lines) == 0,
{
}

proof fn lemma_count_in_range_all(s: Seq<usize>, lo: int, hi: int)
    requires
        forall|i: int| 0 <= i < s.len() ==> lo <= #[trigger] s[i] <= hi,
    ensures
        count_in_range(s, lo, hi) == s.len(),
    decreases s.len(),
{
    if s.len() > 0 {
        lemma_count_in_range_all(s.drop_last(), lo, hi);
    }
}

/// For a relevant-line set equal to the full, sorted set of body lines
/// and holding at most three lines, the locality score equals the total
/// body line count.  (With four or more lines the lower quartile rank
/// rises above the first line, so lines below it are no longer counted.)
pub proof fn lemma_iqr_full(lines: Seq<usize>)
    requires
        lines.len() <= 3,
        forall|a: int, b: int| 0 <= a < b < lines.len() ==> lines[a] < lines[b],
    ensures
        spec_line_iqr(lines, lines) == lines.len(),
{
    if lines.len() == 0 {
    } else {
        let n = lines.len() as int;
        assert(n / 4 == 0);
        assert(n * 3 / 4 == n - 1);
        assert(forall|i: int| 0 <= i < n ==> lines[0] <= #[trigger] lines[i] <= lines[n - 1]);
        lemma_count_in_range_all(lines, lines[0] as int, lines[n - 1] as int);
    }
}

} // verus!
