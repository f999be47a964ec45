//! The token index: an interval-overlap structure over the lexical tokens
//! of one body, supporting "all tokens whose span overlaps a query span"
//! in better than linear time per query.
//!
//! Tokens are kept sorted by starting position together with a running
//! maximum of ending positions, so a query binary-searches for the last
//! candidate and then scans backwards, stopping as soon as the running
//! maximum shows that no earlier token can still overlap.

use vstd::prelude::*;

use crate::lex::{spec_lex, tokenize};
use crate::span::{spans_overlap, Span};

verus! {

/// A token stream as handed over by a lexer: either a single token or a
/// bracketed group of nested trees.
pub enum TokenTree {
    Leaf(Span),
    Group(Vec<TokenTree>),
}

/// The flat token sequence denoted by one tree, in source order.
pub open spec fn flat_tree(t: TokenTree) -> Seq<Span>
    decreases t,
{
    match t {
        TokenTree::Leaf(s) => seq![s],
        TokenTree::Group(ts) => flat_trees(ts@),
    }
}

/// The flat token sequence denoted by a sequence of trees.
pub open spec fn flat_trees(ts: Seq<TokenTree>) -> Seq<Span>
    decreases ts,
{
    if ts.len() == 0 {
        Seq::empty()
    } else {
        flat_tree(ts[0]) + flat_trees(ts.drop_first())
    }
}

proof fn lemma_flat_trees_take_step(ts: Seq<TokenTree>, i: int)
    requires
        0 <= i < ts.len(),
    ensures
        flat_trees(ts.take(i + 1)) == flat_trees(ts.take(i)) + flat_tree(ts[i]),
    decreases i,
{
    if i == 0 {
        assert(ts.take(1).drop_first() =~= Seq::<TokenTree>::empty());
        assert(ts.take(1)[0] == ts[0]);
        assert(flat_trees(ts.take(0)) =~= Seq::<Span>::empty());
        assert(flat_trees(ts.take(1)) == flat_tree(ts.take(1)[0]) + flat_trees(
            ts.take(1).drop_first(),
        ));
        assert(flat_trees(ts.take(1)) =~= flat_tree(ts[0]));
    } else {
        lemma_flat_trees_take_step(ts.drop_first(), i - 1);
        assert(ts.take(i + 1).drop_first() =~= ts.drop_first().take(i));
        assert(ts.take(i).drop_first() =~= ts.drop_first().take(i - 1));
        assert(ts.drop_first()[i - 1] == ts[i]);
        assert(flat_trees(ts.take(i + 1)) == flat_tree(ts[0]) + flat_trees(ts.drop_first().take(i)));
        assert(flat_trees(ts.take(i)) == flat_tree(ts[0]) + flat_trees(ts.drop_first().take(i - 1)));
        assert(flat_trees(ts.take(i)) + flat_tree(ts[i]) =~= flat_tree(ts[0]) + (flat_trees(
            ts.drop_first().take(i - 1),
        ) + flat_tree(ts[i])));
    }
}

#[verifier::loop_isolation(false)]
fn flatten_tree_into(t: &TokenTree, out: &mut Vec<Span>)
    ensures
        final(out)@ == old(out)@ + flat_tree(*t),
    decreases *t,
{
    match t {
        TokenTree::Leaf(s) => {
            out.push(*s);
            assert(out@ =~= old(out)@ + flat_tree(*t));
        },
        TokenTree::Group(ts) => {
            let ghost base = out@;
            let n = ts.len();
            for i in 0..n
                invariant
                    n == ts@.len(),
                    out@ == base + flat_trees(ts@.take(i as int)),
            {
                proof {
                    assert(*t is Group);
                    assert(decreases_to!(*t => (*t)->Group_0));
                    let ghost s = (*t)->Group_0@;
                    assert(decreases_to!((*t)->Group_0 => s));
                    assert(0 <= i < s.len());
                    assert(decreases_to!(s => s[i as int]));
                    assert(decreases_to!(*t => ts@[i as int]));
                }
                flatten_tree_into(&ts[i], out);
                proof {
                    lemma_flat_trees_take_step(ts@, i as int);
                }
            }
            assert(ts@.take(n as int) =~= ts@);
        },
    }
}

/// The lexical tokens of one body, indexed for overlap queries.
///
/// `spans` is sorted by starting position; `running_max` holds, for each
/// prefix of `spans`, the largest ending position seen so far.  The index
/// is built once per body and is read-only afterwards.
pub struct Tokens {
    spans: Vec<Span>,
    running_max: Vec<usize>,
}

impl Tokens {
    /// The indexed token spans, in sequence order; the sequence index of a
    /// token is its identity.
    pub closed spec fn token_spans(self) -> Seq<Span> {
        self.spans@
    }

    pub closed spec fn wf(self) -> bool {
        &&& forall|i: int, j: int|
            0 <= i < j < self.spans@.len() ==> #[trigger] self.spans@[i].lo
                <= #[trigger] self.spans@[j].lo
        &&& forall|i: int| 0 <= i < self.spans@.len() ==> (#[trigger] self.spans@[i]).wf()
        &&& self.running_max@.len() == self.spans@.len()
        &&& forall|i: int, k: int|
            0 <= k <= i < self.spans@.len() ==> #[trigger] self.spans@[k].hi
                <= #[trigger] self.running_max@[i]
    }

    /// Flattens a nested token stream into the flat ordered token
    /// sequence, discarding the bracket structure.
    pub fn flatten_stream(trees: &Vec<TokenTree>) -> (r: Vec<Span>)
        ensures
            r@ == flat_trees(trees@),
    {
        let mut out: Vec<Span> = Vec::new();
        let n = trees.len();
        for i in 0..n
            invariant
                n == trees@.len(),
                out@ == flat_trees(trees@.take(i as int)),
        {
            flatten_tree_into(&trees[i], &mut out);
            proof {
                lemma_flat_trees_take_step(trees@, i as int);
            }
        }
        assert(trees@.take(n as int) =~= trees@);
        out
    }

    /// Builds the index from the token spans of a body snippet, lexed at
    /// offset zero, shifting each span by the snippet's starting offset
    /// `base` in the whole source buffer.
    ///
    /// The spans must arrive in source order, as a lexer produces them.
    pub fn build(snippet_spans: &Vec<Span>, base: usize) -> (t: Tokens)
        requires
            forall|i: int, j: int|
                0 <= i < j < snippet_spans@.len() ==> #[trigger] snippet_spans@[i].lo
                    <= #[trigger] snippet_spans@[j].lo,
            forall|i: int| 0 <= i < snippet_spans@.len() ==> (#[trigger] snippet_spans@[i]).wf(),
            forall|i: int|
                0 <= i < snippet_spans@.len() ==> (#[trigger] snippet_spans@[i]).hi + base
                    <= usize::MAX,
        ensures
            t.wf(),
            t.token_spans().len() == snippet_spans@.len(),
            forall|i: int|
                0 <= i < snippet_spans@.len() ==> #[trigger] t.token_spans()[i] == (Span {
                    lo: (snippet_spans@[i].lo + base) as usize,
                    hi: (snippet_spans@[i].hi + base) as usize,
                }),
    {
        let n = snippet_spans.len();
        let mut spans: Vec<Span> = Vec::new();
        let mut running_max: Vec<usize> = Vec::new();
        let mut best: usize = 0;
        for i in 0..n
            invariant
                n == snippet_spans@.len(),
                forall|i: int, j: int|
                    0 <= i < j < snippet_spans@.len() ==> #[trigger] snippet_spans@[i].lo
                        <= #[trigger] snippet_spans@[j].lo,
                forall|i: int|
                    0 <= i < snippet_spans@.len() ==> (#[trigger] snippet_spans@[i]).wf(),
                forall|i: int|
                    0 <= i < snippet_spans@.len() ==> (#[trigger] snippet_spans@[i]).hi + base
                        <= usize::MAX,
                spans@.len() == i,
                running_max@.len() == i,
                forall|k: int|
                    0 <= k < i ==> #[trigger] spans@[k] == (Span {
                        lo: (snippet_spans@[k].lo + base) as usize,
                        hi: (snippet_spans@[k].hi + base) as usize,
                    }),
                forall|j: int, k: int|
                    0 <= k <= j < i ==> #[trigger] spans@[k].hi <= #[trigger] running_max@[j],
                i > 0 ==> best == running_max@[i - 1],
                i == 0 ==> best == 0,
            {
            let s = snippet_spans[i];
            let shifted = Span { lo: s.lo + base, hi: s.hi + base };
            if i == 0 || shifted.hi > best {
                best = shifted.hi;
            }
            spans.push(shifted);
            running_max.push(best);
        }
        Tokens { spans, running_max }
    }

    /// Every indexed token span is well formed.
    pub proof fn lemma_token_spans_wf(self)
        requires
            self.wf(),
        ensures
            forall|i: int|
                0 <= i < self.token_spans().len() ==> (#[trigger] self.token_spans()[i]).wf(),
    {
    }

    /// The number of tokens in the index.
    pub fn total_tokens(&self) -> (n: usize)
        ensures
            n == self.token_spans().len(),
    {
        self.spans.len()
    }

    /// The token at sequence index `idx`.
    pub fn token_at(&self, idx: usize) -> (s: Span)
        requires
            idx < self.token_spans().len(),
        ensures
            s == self.token_spans()[idx as int],
    {
        self.spans[idx]
    }

    /// Every token whose span has a non-empty intersection with `q`, as a
    /// strictly ascending sequence of token indices.
    ///
    /// A binary search finds the first token starting at or after the end
    /// of `q`; the backwards scan from there stops as soon as the running
    /// maximum of ending positions falls at or below the start of `q`,
    /// since no earlier token can then reach into `q`.
    pub fn overlapping(&self, q: &Span) -> (r: Vec<usize>)
        requires
            self.wf(),
        ensures
            overlap_result_ok(self.token_spans(), *q, r@),
    {
        let n = self.spans.len();
        let mut lo: usize = 0;
        let mut hi: usize = n;
        while lo < hi
            invariant
                self.wf(),
                lo <= hi <= n,
                n == self.token_spans().len(),
                forall|k: int| 0 <= k < lo ==> #[trigger] self.token_spans()[k].lo < q.hi,
                forall|k: int| hi <= k < n ==> #[trigger] self.token_spans()[k].lo >= q.hi,
            decreases hi - lo,
        {
            let mid = lo + (hi - lo) / 2;
            if self.spans[mid].lo < q.hi {
                lo = mid + 1;
            } else {
                hi = mid;
            }
        }
        let cut = lo;
        let mut i = cut;
        let mut rev: Vec<usize> = Vec::new();
        while i > 0
            invariant
                self.wf(),
                i <= cut <= n,
                n == self.token_spans().len(),
                forall|k: int| 0 <= k < cut ==> #[trigger] self.token_spans()[k].lo < q.hi,
                forall|a: int, b: int| 0 <= a < b < rev@.len() ==> rev@[a] > rev@[b],
                forall|x: usize|
                    rev@.contains(x) ==> i <= x < cut && spans_overlap(
                        self.token_spans()[x as int],
                        *q,
                    ),
                forall|k: int|
                    i <= k < cut && spans_overlap(#[trigger] self.token_spans()[k], *q)
                        ==> rev@.contains(k as usize),
                rev@.len() <= cut - i,
            ensures
                forall|x: usize|
                    rev@.contains(x) ==> x < cut && spans_overlap(
                        self.token_spans()[x as int],
                        *q,
                    ),
                forall|k: int|
                    0 <= k < cut && spans_overlap(#[trigger] self.token_spans()[k], *q)
                        ==> rev@.contains(k as usize),
                forall|a: int, b: int| 0 <= a < b < rev@.len() ==> rev@[a] > rev@[b],
            decreases i,
        {
            let j = i - 1;
            if self.running_max[j] <= q.lo {
                proof {
                    assert forall|k: int| 0 <= k <= j implies !spans_overlap(
                        #[trigger] self.token_spans()[k],
                        *q,
                    ) by {
                        assert(self.token_spans()[k].hi <= self.running_max@[j as int]);
                    }
                }
                break ;
            }
            let ghost prev = rev@;
            if self.spans[j].hi > q.lo && self.spans[j].lo < self.spans[j].hi && q.lo < q.hi {
                proof {
                    if rev@.len() > 0 {
                        assert(rev@.contains(rev@[rev@.len() - 1]));
                    }
                }
                rev.push(j);
                proof {
                    assert forall|a: int, b: int|
                        0 <= a < b < rev@.len() implies rev@[a] > rev@[b] by {
                        if b < rev@.len() - 1 {
                        } else {
                            assert(rev@.contains(rev@[a]));
                        }
                    }
                    assert(rev@[prev.len() as int] == j);
                    assert(rev@.contains(j));
                }
            }
            proof {
                assert forall|x: usize| rev@.contains(x) implies (prev.contains(x) || x == j) by {
                    let a = choose|a: int| 0 <= a < rev@.len() && rev@[a] == x;
                    if a < prev.len() {
                        assert(prev[a] == x);
                    }
                }
                assert forall|x: usize| prev.contains(x) implies rev@.contains(x) by {
                    let a = choose|a: int| 0 <= a < prev.len() && prev[a] == x;
                    assert(rev@[a] == x);
                }
                assert(self.token_spans()[j as int].lo < q.hi);
                assert forall|x: usize| rev@.contains(x) implies j <= x < cut && spans_overlap(
                    self.token_spans()[x as int],
                    *q,
                ) by {
                    if !prev.contains(x) {
                        assert(x == j);
                        assert(spans_overlap(self.token_spans()[j as int], *q));
                    }
                }
            }
            i = j;
        }
        let m = rev.len();
        let mut out: Vec<usize> = Vec::new();
        for k in 0..m
            invariant
                m == rev@.len(),
                out@.len() == k,
                forall|a: int| 0 <= a < k ==> #[trigger] out@[a] == rev@[m - 1 - a],
        {
            out.push(rev[m - 1 - k]);
        }
        proof {
            assert forall|x: usize| out@.contains(x) implies rev@.contains(x) by {
                let a = choose|a: int| 0 <= a < out@.len() && out@[a] == x;
                assert(rev@[m - 1 - a] == x);
            }
            assert forall|x: usize| rev@.contains(x) implies out@.contains(x) by {
                let a = choose|a: int| 0 <= a < rev@.len() && rev@[a] == x;
                assert(out@[m - 1 - a] == x);
            }
            assert forall|a: int, b: int| 0 <= a < b < out@.len() implies out@[a] < out@[b] by {
                assert(out@[a] == rev@[m - 1 - a]);
                assert(out@[b] == rev@[m - 1 - b]);
            }
        }
        out
    }
}

/// What a correct answer to an overlap query looks like: `r` lists, in
/// strictly ascending order, exactly the indices of the tokens in `spans`
/// whose span overlaps `q`.
pub open spec fn overlap_result_ok(spans: Seq<Span>, q: Span, r: Seq<usize>) -> bool {
    &&& forall|x: usize| r.contains(x) ==> x < spans.len() && spans_overlap(spans[x as int], q)
    &&& forall|k: int|
        0 <= k < spans.len() && spans_overlap(#[trigger] spans[k], q) ==> r.contains(k as usize)
    &&& forall|a: int, b: int| 0 <= a < b < r.len() ==> r[a] < r[b]
}

/// What a correct answer to a batch of overlap queries looks like: `r`
/// lists, in strictly ascending order, exactly the indices of the tokens
/// overlapping at least one of the query spans `qs`.
pub open spec fn batch_result_ok(spans: Seq<Span>, qs: Seq<Span>, r: Seq<usize>) -> bool {
    &&& forall|x: usize|
        r.contains(x) ==> x < spans.len() && exists|j: int|
            0 <= j < qs.len() && spans_overlap(spans[x as int], #[trigger] qs[j])
    &&& forall|k: int, j: int|
        0 <= k < spans.len() && 0 <= j < qs.len() && spans_overlap(
            #[trigger] spans[k],
            #[trigger] qs[j],
        ) ==> r.contains(k as usize)
    &&& forall|a: int, b: int| 0 <= a < b < r.len() ==> r[a] < r[b]
}

impl Tokens {
    /// The distinct tokens overlapping any of the given spans, deduplicated
    /// by sequence index and returned in ascending index order.
    pub fn query(&self, qs: &Vec<Span>) -> (r: Vec<usize>)
        requires
            self.wf(),
        ensures
            batch_result_ok(self.token_spans(), qs@, r@),
    {
        let n = self.spans.len();
        let mut marks: Vec<bool> = Vec::new();
        for k in 0..n
            invariant
                marks@.len() == k,
                forall|x: int| 0 <= x < k ==> !(#[trigger] marks@[x]),
        {
            marks.push(false);
        }
        let nq = qs.len();
        for j in 0..nq
            invariant
                self.wf(),
                nq == qs@.len(),
                n == self.token_spans().len(),
                marks@.len() == n,
                forall|x: int|
                    0 <= x < n ==> (#[trigger] marks@[x] <==> exists|jj: int|
                        0 <= jj < j && spans_overlap(
                            self.token_spans()[x],
                            #[trigger] qs@[jj],
                        )),
        {
            let ov = self.overlapping(&qs[j]);
            let na = ov.len();
            for a in 0..na
                invariant
                    self.wf(),
                    nq == qs@.len(),
                    j < nq,
                    n == self.token_spans().len(),
                    marks@.len() == n,
                    na == ov@.len(),
                    overlap_result_ok(self.token_spans(), qs@[j as int], ov@),
                    forall|x: int|
                        0 <= x < n ==> (#[trigger] marks@[x] <==> (exists|jj: int|
                            0 <= jj < j && spans_overlap(self.token_spans()[x], #[trigger] qs@[jj]))
                            || ov@.take(a as int).contains(x as usize)),
            {
                let idx = ov[a];
                proof {
                    assert(ov@.contains(ov@[a as int]));
                }
                let ghost before = marks@;
                marks[idx] = true;
                proof {
                    assert(ov@.take(a + 1)[a as int] == ov@[a as int]);
                    assert forall|x: int|
                        0 <= x < n implies (#[trigger] marks@[x] <==> (exists|jj: int|
                        0 <= jj < j && spans_overlap(self.token_spans()[x], #[trigger] qs@[jj]))
                        || ov@.take(a + 1).contains(x as usize)) by {
                        if x == idx {
                            assert(ov@.take(a + 1).contains(ov@[a as int]));
                        } else {
                            assert(marks@[x] == before[x]);
                            assert forall|y: usize|
                                ov@.take(a as int).contains(y) implies ov@.take(a + 1).contains(
                                y,
                            ) by {
                                let w = choose|w: int|
                                    0 <= w < a && ov@.take(a as int)[w] == y;
                                assert(ov@.take(a + 1)[w] == y);
                            }
                            if ov@.take(a + 1).contains(x as usize) {
                                let w = choose|w: int|
                                    0 <= w < a + 1 && #[trigger] ov@.take(a + 1)[w] == x as usize;
                                if w < a {
                                    assert(ov@.take(a as int)[w] == x as usize);
                                }
                            }
                        }
                    }
                }
            }
            proof {
                assert(ov@.take(na as int) =~= ov@);
                assert forall|x: int|
                    0 <= x < n implies (#[trigger] marks@[x] <==> exists|jj: int|
                    0 <= jj < j + 1 && spans_overlap(
                        self.token_spans()[x],
                        #[trigger] qs@[jj],
                    )) by {
                    if marks@[x] {
                        if ov@.contains(x as usize) {
                            assert(spans_overlap(self.token_spans()[x], qs@[j as int]));
                        }
                    } else {
                        if exists|jj: int|
                            0 <= jj < j + 1 && spans_overlap(
                                self.token_spans()[x],
                                #[trigger] qs@[jj],
                            ) {
                            let jj = choose|jj: int|
                                0 <= jj < j + 1 && spans_overlap(
                                    self.token_spans()[x],
                                    #[trigger] qs@[jj],
                                );
                            if jj == j {
                                assert(ov@.contains(x as usize));
                            }
                            assert(false);
                        }
                    }
                }
            }
        }
        let mut out: Vec<usize> = Vec::new();
        for k in 0..n
            invariant
                n == self.token_spans().len(),
                marks@.len() == n,
                forall|x: int|
                    0 <= x < n ==> (#[trigger] marks@[x] <==> exists|jj: int|
                        0 <= jj < qs@.len() && spans_overlap(
                            self.token_spans()[x],
                            #[trigger] qs@[jj],
                        )),
                forall|a: int, b: int| 0 <= a < b < out@.len() ==> out@[a] < out@[b],
                forall|x: usize| out@.contains(x) ==> x < k && marks@[x as int],
                forall|x: int| 0 <= x < k && marks@[x] ==> out@.contains(x as usize),
            {
            if marks[k] {
                proof {
                    if out@.len() > 0 {
                        assert(out@.contains(out@[out@.len() - 1]));
                    }
                }
                let ghost prev = out@;
                out.push(k);
                proof {
                    assert(out@[prev.len() as int] == k);
                    assert forall|a: int, b: int|
                        0 <= a < b < out@.len() implies out@[a] < out@[b] by {
                        if b < out@.len() - 1 {
                        } else {
                            assert(out@.contains(out@[a]));
                        }
                    }
                    assert forall|x: usize| out@.contains(x) implies x < k + 1 && marks@[x as int]
                        by {
                        let w = choose|w: int| 0 <= w < out@.len() && out@[w] == x;
                        if w < prev.len() {
                            assert(prev[w] == x);
                            assert(prev.contains(x));
                        }
                    }
                    assert forall|x: int|
                        0 <= x < k + 1 && marks@[x] implies out@.contains(x as usize) by {
                        if x < k {
                            assert(prev.contains(x as usize));
                            let w = choose|w: int| 0 <= w < prev.len() && prev[w] == x as usize;
                            assert(out@[w] == x as usize);
                        } else {
                            assert(out@.contains(k));
                        }
                    }
                }
            }
        }
        proof {
            assert forall|x: usize| out@.contains(x) implies x < self.token_spans().len()
                && exists|j: int|
                0 <= j < qs@.len() && spans_overlap(
                    self.token_spans()[x as int],
                    #[trigger] qs@[j],
                ) by {
                assert(marks@[x as int]);
            }
            assert forall|k: int, j: int|
                0 <= k < self.token_spans().len() && 0 <= j < qs@.len() && spans_overlap(
                    #[trigger] self.token_spans()[k],
                    #[trigger] qs@[j],
                ) implies out@.contains(k as usize) by {
                assert(marks@[k]);
            }
        }
        out
    }
}

/// Lexes a body snippet and builds the overlap index over its tokens,
/// shifted to the whole buffer by the snippet's starting offset `base`;
/// `None` when the snippet cannot be lexed, in which case the body is
/// skipped for token-correlated configurations.
pub fn index_snippet(text: &Vec<char>, base: usize) -> (r: Option<Tokens>)
    requires
        base + text@.len() <= usize::MAX,
    ensures
        match r {
            Some(t) => {
                &&& t.wf()
                &&& spec_lex(text@, 0) is Some
                &&& t.token_spans().len() == spec_lex(text@, 0)->0.len()
                &&& forall|i: int|
                    0 <= i < t.token_spans().len() ==> #[trigger] t.token_spans()[i] == (Span {
                        lo: (spec_lex(text@, 0)->0[i].lo + base) as usize,
                        hi: (spec_lex(text@, 0)->0[i].hi + base) as usize,
                    })
            },
            None => spec_lex(text@, 0) is None,
        },
{
    match tokenize(text) {
        Some(spans) => {
            proof {
                crate::lex::lemma_lex_sorted(text@, 0);
                assert(spans@ == spec_lex(text@, 0)->0);
                assert forall|i: int, j: int|
                    0 <= i < j < spans@.len() implies #[trigger] spans@[i].lo <= #[trigger] spans@[
                    j
                ].lo by {
                    assert(spec_lex(text@, 0)->0[i] == spans@[i]);
                    assert(spec_lex(text@, 0)->0[j] == spans@[j]);
                    assert(spans@[i].hi <= spans@[j].lo);
                    assert(spans@[i].lo < spans@[i].hi);
                }
                assert forall|i: int| 0 <= i < spans@.len() implies (#[trigger] spans@[i]).wf() by {
                    assert(spec_lex(text@, 0)->0[i] == spans@[i]);
                    assert(spans@[i].lo < spans@[i].hi);
                }
                assert forall|i: int|
                    0 <= i < spans@.len() implies (#[trigger] spans@[i]).hi + base
                    <= usize::MAX by {
                    assert(spec_lex(text@, 0)->0[i] == spans@[i]);
                    assert(spans@[i].hi <= text@.len());
                }
            }
            Some(Tokens::build(&spans, base))
        },
        None => None,
    }
}

/// For a query span exactly equal to the span of one token of non-zero
/// width, an overlap query answer contains at least that token.
pub proof fn lemma_query_exact_token(spans: Seq<Span>, q: Span, r: Seq<usize>, i: int)
    requires
        overlap_result_ok(spans, q, r),
        0 <= i < spans.len(),
        q == spans[i],
        q.lo < q.hi,
    ensures
        r.contains(i as usize),
{
    assert(spans_overlap(spans[i], q));
}

/// For a query span disjoint from every token, an overlap query answer is
/// empty.
pub proof fn lemma_query_disjoint(spans: Seq<Span>, q: Span, r: Seq<usize>)
    requires
        overlap_result_ok(spans, q, r),
        forall|k: int| 0 <= k < spans.len() ==> !spans_overlap(#[trigger] spans[k], q),
    ensures
        r.len() == 0,
{
    if r.len() > 0 {
        assert(r.contains(r[0]));
    }
}

} // verus!
