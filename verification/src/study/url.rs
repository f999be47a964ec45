//! A URL parser for a fixed shape of URL: scheme, hostname, top-level
//! domain, port, path segments and query string.

use vstd::prelude::*;

use crate::text::{chars_of, string_of};

verus! {

#[derive(Debug, PartialEq, Eq, Clone)]
pub struct Url {
    pub scheme: Option<String>,
    pub hostname: String,
    pub tld: Option<String>,
    pub port: Option<usize>,
    pub path: Vec<String>,
    pub query: Option<String>,
}

/// The components of a URL, at the specification level.
pub ghost struct UrlParts {
    pub scheme: Option<Seq<char>>,
    pub hostname: Seq<char>,
    pub tld: Option<Seq<char>>,
    pub port: Option<int>,
    pub path: Seq<Seq<char>>,
    pub query: Option<Seq<char>>,
}

/// The views of a sequence of strings.
pub open spec fn seg_views(v: Seq<String>) -> Seq<Seq<char>> {
    v.map_values(|s2: String| s2@)
}

/// The views of a sequence of character vectors.
pub open spec fn char_views(v: Seq<Vec<char>>) -> Seq<Seq<char>> {
    v.map_values(|seg: Vec<char>| seg@)
}

proof fn lemma_seg_views_push(v: Seq<String>, x: String)
    ensures
        seg_views(v.push(x)) == seg_views(v).push(x@),
{
    assert(seg_views(v.push(x)) =~= seg_views(v).push(x@));
}

/// The first position at or after `from` holding `c`, or the length.
pub open spec fn idx_of(s: Seq<char>, from: int, c: char) -> int
    decreases s.len() - from,
{
    if from < 0 || from >= s.len() {
        s.len() as int
    } else if s[from] == c {
        from
    } else {
        idx_of(s, from + 1, c)
    }
}

/// The first position at or after `from` holding `c1` or `c2`, or the
/// length.
pub open spec fn idx_of2(s: Seq<char>, from: int, c1: char, c2: char) -> int
    decreases s.len() - from,
{
    if from < 0 || from >= s.len() {
        s.len() as int
    } else if s[from] == c1 || s[from] == c2 {
        from
    } else {
        idx_of2(s, from + 1, c1, c2)
    }
}

/// Whether `s` holds `"://"` anywhere.
pub open spec fn has_scheme_marker(s: Seq<char>) -> bool {
    exists|i: int| 0 <= i && i + 2 < s.len() && #[trigger] s[i] == ':' && s[i + 1] == '/' && s[i + 2] == '/'
}

/// The numeric value of a non-empty all-digit string, or `None`.
pub open spec fn spec_parse_number(s: Seq<char>) -> Option<int>
    decreases s.len(),
{
    if s.len() == 0 {
        Some(0)
    } else if !('0' <= s.last() <= '9') {
        None
    } else {
        match spec_parse_number(s.drop_last()) {
            Some(v) => Some(v * 10 + (s.last() as int - '0' as int)),
            None => None,
        }
    }
}

/// A port string parses when it is non-empty, all digits, and its value
/// fits the machine word.
pub open spec fn spec_parse_port(s: Seq<char>) -> Option<int> {
    match spec_parse_number(s) {
        Some(v) => if s.len() > 0 && v <= usize::MAX {
            Some(v)
        } else {
            None
        },
        None => None,
    }
}

/// The path segments from `pos` on: segments are separated by `/`, and an
/// empty segment ends the path.
pub open spec fn spec_path_segments(s: Seq<char>, pos: int) -> Seq<Seq<char>>
    decreases s.len() - pos,
    via spec_path_segments_decreases
{
    if pos < 0 || pos >= s.len() {
        Seq::empty()
    } else {
        let stop = idx_of(s, pos, '/');
        let part = s.subrange(pos, stop);
        if part.len() == 0 {
            Seq::empty()
        } else if stop < s.len() {
            seq![part] + spec_path_segments(s, stop + 1)
        } else {
            seq![part]
        }
    }
}

#[via_fn]
proof fn spec_path_segments_decreases(s: Seq<char>, pos: int) {
    if 0 <= pos < s.len() {
        lemma_idx_of_bounds(s, pos, '/');
    }
}

pub proof fn lemma_idx_of_bounds(s: Seq<char>, from: int, c: char)
    requires
        0 <= from <= s.len(),
    ensures
        from <= idx_of(s, from, c) <= s.len(),
        idx_of(s, from, c) < s.len() ==> s[idx_of(s, from, c)] == c,
        forall|i: int| from <= i < idx_of(s, from, c) ==> s[i] != c,
    decreases s.len() - from,
{
    if from < s.len() && s[from] != c {
        lemma_idx_of_bounds(s, from + 1, c);
    }
}

pub proof fn lemma_idx_of2_bounds(s: Seq<char>, from: int, c1: char, c2: char)
    requires
        0 <= from <= s.len(),
    ensures
        from <= idx_of2(s, from, c1, c2) <= s.len(),
        idx_of2(s, from, c1, c2) < s.len() ==> (s[idx_of2(s, from, c1, c2)] == c1 || s[idx_of2(
            s,
            from,
            c1,
            c2,
        )] == c2),
        forall|i: int| from <= i < idx_of2(s, from, c1, c2) ==> s[i] != c1 && s[i] != c2,
    decreases s.len() - from,
{
    if from < s.len() && s[from] != c1 && s[from] != c2 {
        lemma_idx_of2_bounds(s, from + 1, c1, c2);
    }
}

/// The decomposition of `s` as a URL, mirroring a single left-to-right
/// scan: an optional `scheme://`, a hostname up to `.`, `:` or `/`, an
/// optional `.tld`, an optional `:port`, `/`-separated path segments, and
/// a query behind `?` in the last segment.  The parse fails when a scheme
/// marker is present but malformed at the first `:`, when the hostname is
/// empty, or when a present port does not parse.
pub open spec fn spec_decode_url(s: Seq<char>) -> Option<UrlParts> {
    let cp = idx_of(s, 0, ':');
    let scheme_end: int = if has_scheme_marker(s) {
        cp + 3
    } else {
        0
    };
    if has_scheme_marker(s) && !(cp + 2 < s.len() && s[cp + 1] == '/' && s[cp + 2] == '/') {
        None
    } else {
        let scheme: Option<Seq<char>> = if has_scheme_marker(s) {
            Some(s.subrange(0, cp))
        } else {
            None
        };
        let dstop = idx_of2(s, scheme_end, ':', '/');
        let domain = s.subrange(scheme_end, dstop);
        if domain.len() == 0 {
            None
        } else {
            let hsplit = idx_of(domain, 0, '.');
            let hostname = domain.subrange(0, hsplit);
            let tld: Option<Seq<char>> = if hsplit < domain.len() {
                Some(domain.subrange(hsplit + 1, idx_of(domain, hsplit + 1, '.')))
            } else {
                None
            };
            let pstart: int = if dstop < s.len() && s[dstop] == ':' {
                let pend = idx_of(s, dstop + 1, '/');
                if pend < s.len() {
                    pend + 1
                } else {
                    pend
                }
            } else if dstop < s.len() {
                dstop + 1
            } else {
                dstop
            };
            let port_str: Seq<char> = if dstop < s.len() && s[dstop] == ':' {
                s.subrange(dstop + 1, idx_of(s, dstop + 1, '/'))
            } else {
                Seq::empty()
            };
            if port_str.len() > 0 && spec_parse_port(port_str) is None {
                None
            } else {
                let port: Option<int> = if port_str.len() > 0 {
                    spec_parse_port(port_str)
                } else {
                    None
                };
                let raw_path = spec_path_segments(s, pstart);
                let (path, query): (Seq<Seq<char>>, Option<Seq<char>>) = if raw_path.len() > 0
                    && raw_path.last().contains('?') {
                    let page = raw_path.last();
                    let qi = idx_of(page, 0, '?');
                    let pre = page.subrange(0, qi);
                    (
                        raw_path.drop_last() + if pre.len() > 0 {
                            seq![pre]
                        } else {
                            Seq::empty()
                        },
                        Some(page.subrange(qi + 1, page.len() as int)),
                    )
                } else {
                    (raw_path, None)
                };
                Some(UrlParts { scheme, hostname, tld, port, path, query })
            }
        }
    }
}

/// Whether the executable result carries exactly the given components.
pub open spec fn url_matches(u: Url, p: UrlParts) -> bool {
    &&& (u.scheme is Some <==> p.scheme is Some)
    &&& (u.scheme is Some ==> u.scheme->0@ == p.scheme->0)
    &&& u.hostname@ == p.hostname
    &&& (u.tld is Some <==> p.tld is Some)
    &&& (u.tld is Some ==> u.tld->0@ == p.tld->0)
    &&& (u.port is Some <==> p.port is Some)
    &&& (u.port is Some ==> u.port->0 as int == p.port->0)
    &&& seg_views(u.path@) == p.path
    &&& (u.query is Some <==> p.query is Some)
    &&& (u.query is Some ==> u.query->0@ == p.query->0)
}

/// Finds the first position at or after `from` holding `c`.
pub(crate) fn find_char(v: &Vec<char>, from: usize, c: char) -> (r: usize)
    requires
        from <= v@.len(),
    ensures
        r == idx_of(v@, from as int, c),
        from <= r <= v@.len(),
{
    proof {
        lemma_idx_of_bounds(v@, from as int, c);
    }
    let n = v.len();
    let mut i = from;
    while i < n
        invariant
            from <= i <= n,
            n == v@.len(),
            i <= idx_of(v@, from as int, c),
        decreases n - i,
    {
        proof {
            lemma_idx_of_bounds(v@, from as int, c);
        }
        if v[i] == c {
            proof {
                if idx_of(v@, from as int, c) > i {
                    assert(v@[i as int] != c);
                }
            }
            return i;
        }
        proof {
            if idx_of(v@, from as int, c) == i {
                assert(v@[i as int] == c);
            }
        }
        i = i + 1;
    }
    proof {
        lemma_idx_of_bounds(v@, from as int, c);
    }
    n
}

/// Finds the first position at or after `from` holding `c1` or `c2`.
fn find_char2(v: &Vec<char>, from: usize, c1: char, c2: char) -> (r: usize)
    requires
        from <= v@.len(),
    ensures
        r == idx_of2(v@, from as int, c1, c2),
        from <= r <= v@.len(),
{
    proof {
        lemma_idx_of2_bounds(v@, from as int, c1, c2);
    }
    let n = v.len();
    let mut i = from;
    while i < n
        invariant
            from <= i <= n,
            n == v@.len(),
            i <= idx_of2(v@, from as int, c1, c2),
        decreases n - i,
    {
        proof {
            lemma_idx_of2_bounds(v@, from as int, c1, c2);
        }
        if v[i] == c1 || v[i] == c2 {
            proof {
                if idx_of2(v@, from as int, c1, c2) > i {
                    assert(v@[i as int] != c1 && v@[i as int] != c2);
                }
            }
            return i;
        }
        proof {
            if idx_of2(v@, from as int, c1, c2) == i {
                assert(v@[i as int] == c1 || v@[i as int] == c2);
            }
        }
        i = i + 1;
    }
    proof {
        lemma_idx_of2_bounds(v@, from as int, c1, c2);
    }
    n
}

/// Copies `v[from..to]` into a fresh vector.
pub(crate) fn slice_chars(v: &Vec<char>, from: usize, to: usize) -> (r: Vec<char>)
    requires
        from <= to <= v@.len(),
    ensures
        r@ == v@.subrange(from as int, to as int),
{
    let mut out: Vec<char> = Vec::new();
    for i in from..to
        invariant
            from <= i <= to <= v@.len(),
            out@ == v@.subrange(from as int, i as int),
    {
        out.push(v[i]);
        proof {
            assert(out@ =~= v@.subrange(from as int, i + 1));
        }
    }
    out
}

/// Whether `v` holds `"://"` anywhere.
fn has_marker(v: &Vec<char>) -> (r: bool)
    ensures
        r == has_scheme_marker(v@),
{
    let n = v.len();
    if n < 3 {
        proof {
            if has_scheme_marker(v@) {
                let i = choose|i: int|
                    0 <= i && i + 2 < v@.len() && #[trigger] v@[i] == ':' && v@[i + 1] == '/' && v@[
                    i + 2
                ] == '/';
                assert(false);
            }
        }
        return false;
    }
    for i in 0..n - 2
        invariant
            n == v@.len(),
            n >= 3,
            forall|k: int|
                0 <= k < i ==> !(#[trigger] v@[k] == ':' && v@[k + 1] == '/' && v@[k + 2] == '/'),
    {
        if v[i] == ':' && v[i + 1] == '/' && v[i + 2] == '/' {
            return true;
        }
    }
    proof {
        if has_scheme_marker(v@) {
            let i = choose|i: int|
                0 <= i && i + 2 < v@.len() && #[trigger] v@[i] == ':' && v@[i + 1] == '/' && v@[
                    i + 2
                ] == '/';
            assert(!(v@[i] == ':' && v@[i + 1] == '/' && v@[i + 2] == '/'));
        }
    }
    false
}

/// Parses a non-empty all-digit port string whose value fits the machine
/// word.
fn parse_port(v: &Vec<char>) -> (r: Option<usize>)
    ensures
        match r {
            Some(p) => spec_parse_port(v@) == Some(p as int),
            None => spec_parse_port(v@) is None,
        },
{
    let n = v.len();
    if n == 0 {
        return None;
    }
    let mut value: usize = 0;
    for i in 0..n
        invariant
            n == v@.len(),
            spec_parse_number(v@.take(i as int)) == Some(value as int),
    {
        let c = v[i];
        proof {
            assert(v@.take(i + 1).drop_last() =~= v@.take(i as int));
            assert(v@.take(i + 1).last() == v@[i as int]);
        }
        if !('0' <= c && c <= '9') {
            proof {
                lemma_parse_prefix_none(v@, i + 1);
            }
            return None;
        }
        let d = (c as u32 - '0' as u32) as usize;
        if value > (usize::MAX - d) / 10 {
            proof {
                assert(value * 10 + d > usize::MAX) by (nonlinear_arith)
                    requires
                        value > (usize::MAX - d) / 10,
                        0 <= d <= 9,
                ;
                lemma_parse_prefix_overflow(v@, i + 1, usize::MAX as int);
            }
            return None;
        }
        proof {
            assert(value * 10 + d <= usize::MAX) by (nonlinear_arith)
                requires
                    value <= (usize::MAX - d) / 10,
                    0 <= d <= 9,
            ;
        }
        value = value * 10 + d;
    }
    proof {
        assert(v@.take(n as int) =~= v@);
    }
    Some(value)
}

/// A failed digit anywhere makes the whole number fail.
proof fn lemma_parse_prefix_none(s: Seq<char>, upto: int)
    requires
        0 < upto <= s.len(),
        spec_parse_number(s.take(upto)) is None,
    ensures
        spec_parse_number(s) is None,
    decreases s.len() - upto,
{
    if upto == s.len() {
        assert(s.take(upto) =~= s);
    } else {
        assert(s.take(upto + 1).drop_last() =~= s.take(upto));
        lemma_parse_prefix_none(s, upto + 1);
    }
}

/// Digits never shrink the value, so a too-large prefix makes the port
/// fail.
proof fn lemma_parse_prefix_overflow(s: Seq<char>, upto: int, bound: int)
    requires
        0 < upto <= s.len(),
        bound >= 0,
        match spec_parse_number(s.take(upto)) {
            Some(v) => v > bound,
            None => true,
        },
    ensures
        match spec_parse_number(s) {
            Some(v) => v > bound,
            None => true,
        },
    decreases s.len() - upto,
{
    if upto == s.len() {
        assert(s.take(upto) =~= s);
    } else {
        assert(s.take(upto + 1).drop_last() =~= s.take(upto));
        if spec_parse_number(s.take(upto)) is Some {
            let v = spec_parse_number(s.take(upto))->0;
            assert(v * 10 + 0 >= v) by (nonlinear_arith)
                requires
                    v >= 0,
            ;
            if spec_parse_number(s.take(upto + 1)) is Some {
                assert(spec_parse_number(s.take(upto + 1))->0 >= v * 10) by (nonlinear_arith)
                    requires
                        spec_parse_number(s.take(upto + 1))->0 == v * 10 + (s.take(upto + 1).last()
                            as int - '0' as int),
                        '0' <= s.take(upto + 1).last() <= '9',
                ;
                assert(v * 10 >= v) by (nonlinear_arith)
                    requires
                        v >= 0,
                ;
            }
        }
        lemma_parse_prefix_overflow(s, upto + 1, bound);
    }
}

/// Collects the `/`-separated path segments of `v` from `pos` on; an
/// empty segment ends the path.
fn path_segments(v: &Vec<char>, pos: usize) -> (r: Vec<Vec<char>>)
    requires
        pos <= v@.len(),
    ensures
        char_views(r@) == spec_path_segments(v@, pos as int),
{
    let n = v.len();
    let mut out: Vec<Vec<char>> = Vec::new();
    let mut cur = pos;
    loop
        invariant
            pos <= cur <= n,
            n == v@.len(),
            spec_path_segments(v@, pos as int) == char_views(out@) + spec_path_segments(
                v@,
                cur as int,
            ),
        ensures
            char_views(out@) == spec_path_segments(v@, pos as int),
        decreases n - cur + 1,
    {
        if cur >= n {
            proof {
                assert(spec_path_segments(v@, cur as int) =~= Seq::<Seq<char>>::empty());
            }
            break ;
        }
        let stop = find_char(v, cur, '/');
        let part = slice_chars(v, cur, stop);
        if part.len() == 0 {
            proof {
                assert(spec_path_segments(v@, cur as int) =~= Seq::<Seq<char>>::empty());
            }
            break ;
        }
        let ghost prev = out@;
        out.push(part);
        proof {
            assert(char_views(out@) =~= char_views(prev) + seq![
                v@.subrange(cur as int, stop as int),
            ]);
            assert(spec_path_segments(v@, pos as int) =~= char_views(out@) + spec_path_segments(
                v@,
                if stop < v@.len() {
                    stop + 1
                } else {
                    stop as int
                },
            ));
        }
        if stop < n {
            cur = stop + 1;
        } else {
            proof {
                assert(spec_path_segments(v@, stop as int) =~= Seq::<Seq<char>>::empty());
            }
            cur = stop;
            break ;
        }
    }
    out
}

/// Whether any character of `v` is `c`.
fn contains_char(v: &Vec<char>, c: char) -> (r: bool)
    ensures
        r == v@.contains(c),
{
    let n = v.len();
    for i in 0..n
        invariant
            n == v@.len(),
            forall|k: int| 0 <= k < i ==> v@[k] != c,
    {
        if v[i] == c {
            return true;
        }
    }
    proof {
        if v@.contains(c) {
            let k = choose|k: int| 0 <= k < v@.len() && v@[k] == c;
        }
    }
    false
}

/// Splits an optional query off the last path segment: the text behind
/// the first `?` becomes the query, and the text before it stays the
/// last segment unless empty.
fn split_query(raw: &Vec<Vec<char>>) -> (pq: (Vec<String>, Option<String>))
    ensures
        ({
            let specs = char_views(raw@);
            if specs.len() > 0 && specs.last().contains('?') {
                let page = specs.last();
                let qi = idx_of(page, 0, '?');
                let pre = page.subrange(0, qi);
                &&& pq.1 is Some
                &&& pq.1->0@ == page.subrange(qi + 1, page.len() as int)
                &&& seg_views(pq.0@) == specs.drop_last() + (if pre.len() > 0 {
                    seq![pre]
                } else {
                    Seq::<Seq<char>>::empty()
                })
            } else {
                &&& pq.1 is None
                &&& seg_views(pq.0@) == specs
            }
        }),
{
    let ghost specs = char_views(raw@);
    let np = raw.len();
    let mut path: Vec<String> = Vec::new();
    proof {
        assert(seg_views(path@) =~= specs.take(0));
    }
    if np > 0 && contains_char(&raw[np - 1], '?') {
        proof {
            assert(specs.last() == raw@[np - 1]@);
            assert(specs.last().contains('?'));
        }
        for k in 0..np - 1
            invariant
                np == raw@.len(),
                np > 0,
                specs == char_views(raw@),
                seg_views(path@) == specs.take(k as int),
        {
            let seg = crate::text::string_of(&raw[k]);
            let ghost prev = path@;
            path.push(seg);
            proof {
                lemma_seg_views_push(prev, path@.last());
                assert(seg_views(path@) =~= specs.take(k + 1));
            }
        }
        proof {
            assert(specs.take(np - 1) =~= specs.drop_last());
        }
        let page = &raw[np - 1];
        let qi = find_char(page, 0, '?');
        proof {
            lemma_idx_of_bounds(page@, 0, '?');
            let w = choose|w: int| 0 <= w < page@.len() && page@[w] == '?';
            assert(qi < page@.len());
        }
        let pre = slice_chars(page, 0, qi);
        if pre.len() > 0 {
            let ghost prev = path@;
            path.push(crate::text::string_of(&pre));
            proof {
                lemma_seg_views_push(prev, path@.last());
                assert(seg_views(path@) =~= specs.drop_last() + seq![
                    page@.subrange(0, qi as int),
                ]);
            }
        } else {
            proof {
                assert(seg_views(path@) =~= specs.drop_last() + Seq::<Seq<char>>::empty());
            }
        }
        let plen = page.len();
        proof {
            assert(qi < plen);
        }
        let q = slice_chars(page, qi + 1, plen);
        let query = Some(crate::text::string_of(&q));
        (path, query)
    } else {
        for k in 0..np
            invariant
                np == raw@.len(),
                specs == char_views(raw@),
                seg_views(path@) == specs.take(k as int),
        {
            let ghost prev = path@;
            path.push(crate::text::string_of(&raw[k]));
            proof {
                lemma_seg_views_push(prev, path@.last());
                assert(seg_views(path@) =~= specs.take(k + 1));
            }
        }
        proof {
            assert(specs.take(np as int) =~= specs);
            if np > 0 && specs.last().contains('?') {
                assert(specs.last() == raw@[np - 1]@);
            }
        }
        (path, None)
    }
}

/// Parses a URL string into its components, as described by
/// `spec_decode_url`; returns `None` on a string of the wrong shape.
pub fn decode_url(url: &str) -> (r: Option<Url>)
    ensures
        (r is Some <==> spec_decode_url(url@) is Some),
        r is Some ==> url_matches(r->0, spec_decode_url(url@)->0),
{
    let v = chars_of(url);
    let n = v.len();
    let marker = has_marker(&v);
    let cp = find_char(&v, 0, ':');
    let scheme_end: usize;
    let scheme: Option<String>;
    if marker {
        proof {
            let i = choose|i: int|
                0 <= i && i + 2 < v@.len() && #[trigger] v@[i] == ':' && v@[i + 1] == '/' && v@[
                    i + 2
                ] == '/';
            lemma_idx_of_bounds(v@, 0, ':');
            assert(cp <= i);
        }
        if !(cp + 2 < n && v[cp + 1] == '/' && v[cp + 2] == '/') {
            return None;
        }
        scheme = Some(string_of(&slice_chars(&v, 0, cp)));
        scheme_end = cp + 3;
    } else {
        scheme = None;
        scheme_end = 0;
    }
    let dstop = find_char2(&v, scheme_end, ':', '/');
    let domain = slice_chars(&v, scheme_end, dstop);
    if domain.len() == 0 {
        return None;
    }
    let hsplit = find_char(&domain, 0, '.');
    let hostname = string_of(&slice_chars(&domain, 0, hsplit));
    let tld: Option<String> = if hsplit < domain.len() {
        let tend = find_char(&domain, hsplit + 1, '.');
        Some(string_of(&slice_chars(&domain, hsplit + 1, tend)))
    } else {
        None
    };
    let mut pstart: usize;
    let port_str: Vec<char>;
    if dstop < n && v[dstop] == ':' {
        let pend = find_char(&v, dstop + 1, '/');
        port_str = slice_chars(&v, dstop + 1, pend);
        pstart = if pend < n {
            pend + 1
        } else {
            pend
        };
    } else if dstop < n {
        port_str = Vec::new();
        pstart = dstop + 1;
    } else {
        port_str = Vec::new();
        pstart = dstop;
    }
    let port: Option<usize>;
    if port_str.len() > 0 {
        match parse_port(&port_str) {
            Some(p) => {
                port = Some(p);
            },
            None => {
                return None;
            },
        }
    } else {
        port = None;
    }
    let raw_path = path_segments(&v, pstart);
    let (path, query) = split_query(&raw_path);
    Some(Url { scheme, hostname, tld, port, path, query })
}

} // verus!
