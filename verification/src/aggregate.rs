//! Dependency aggregation: merging the per-target-point dependency sets
//! the engine reports into one deduplicated relevance set per measured
//! entity.

use vstd::prelude::*;
use vstd::seq_lib::*;
use vstd::set_lib::lemma_len_subset;

use crate::body::Loc;
use crate::targets::Target;

verus! {

/// The locations relevant to local `l`: those reported in some dependency
/// set whose target point concerns `l`.
pub open spec fn spec_joined_contains(
    targets: Seq<Target>,
    deps: Seq<Seq<Loc>>,
    l: usize,
    loc: Loc,
) -> bool {
    exists|i: int|
        0 <= i < targets.len() && (#[trigger] targets[i]).local == l && deps[i].contains(loc)
}

/// Whether some target point in `targets` concerns local `l`.
pub open spec fn local_among(targets: Seq<Target>, l: usize) -> bool {
    exists|x: int| 0 <= x < targets.len() && (#[trigger] targets[x]).local == l
}

/// Whether `r` holds an aggregated entry for local `l`.
pub open spec fn has_entry(r: Seq<JoinedDeps>, l: usize) -> bool {
    exists|a: int| 0 <= a < r.len() && (#[trigger] r[a]).local == l
}

/// One aggregated entity: a local together with the deduplicated union of
/// the dependency sets of all its target points.
pub struct JoinedDeps {
    pub local: usize,
    pub deps: Vec<Loc>,
}

/// What a correct aggregation looks like: one entry per local appearing
/// in the targets, in order of first appearance, each carrying, without
/// duplicates, exactly the union of the dependency sets of that local's
/// target points.
pub open spec fn joined_ok(targets: Seq<Target>, deps: Seq<Seq<Loc>>, r: Seq<JoinedDeps>) -> bool {
    &&& forall|a: int, b: int| 0 <= a < b < r.len() ==> (#[trigger] r[a]).local != (
    #[trigger] r[b]).local
    &&& forall|a: int| 0 <= a < r.len() ==> local_among(targets, (#[trigger] r[a]).local)
    &&& forall|i: int| 0 <= i < targets.len() ==> has_entry(r, (#[trigger] targets[i]).local)
    &&& forall|a: int| 0 <= a < r.len() ==> (#[trigger] r[a]).deps@.no_duplicates()
    &&& forall|a: int, loc: Loc|
        0 <= a < r.len() ==> (#[trigger] r[a].deps@.contains(loc) <==> spec_joined_contains(
            targets,
            deps,
            r[a].local,
            loc,
        ))
}

/// Appends to `acc` every location of `part` not already present.
#[verifier::loop_isolation(false)]
fn union_into(acc: &mut Vec<Loc>, part: &Vec<Loc>)
    requires
        old(acc)@.no_duplicates(),
    ensures
        final(acc)@.no_duplicates(),
        forall|loc: Loc|
            #[trigger] final(acc)@.contains(loc) <==> old(acc)@.contains(loc) || part@.contains(
                loc,
            ),
{
    let n = part.len();
    for i in 0..n
        invariant
            n == part@.len(),
            acc@.no_duplicates(),
            forall|loc: Loc|
                acc@.contains(loc) <==> old(acc)@.contains(loc) || part@.take(i as int).contains(
                    loc,
                ),
    {
        let loc = part[i];
        let mut present = false;
        let m = acc.len();
        for k in 0..m
            invariant
                m == acc@.len(),
                present == exists|x: int| 0 <= x < k && #[trigger] acc@[x] == loc,
        {
            if acc[k] == loc {
                present = true;
            }
        }
        proof {
            if present {
                let w = choose|x: int| 0 <= x < acc@.len() && #[trigger] acc@[x] == loc;
                assert(acc@.contains(loc));
            }
            if acc@.contains(loc) {
                let w = choose|x: int| 0 <= x < acc@.len() && #[trigger] acc@[x] == loc;
            }
        }
        let ghost prev = acc@;
        if !present {
            acc.push(loc);
            proof {
                assert forall|x: Loc| acc@.contains(x) implies (prev.contains(x) || x == loc) by {
                    let w = choose|w: int| 0 <= w < acc@.len() && acc@[w] == x;
                    if w < prev.len() {
                        assert(prev[w] == x);
                    }
                }
                assert forall|x: Loc| prev.contains(x) implies acc@.contains(x) by {
                    let w = choose|w: int| 0 <= w < prev.len() && prev[w] == x;
                    assert(acc@[w] == x);
                }
                assert(acc@[prev.len() as int] == loc);
                assert(acc@.contains(loc));
                assert(acc@.no_duplicates()) by {
                    assert(forall|a: int, b: int|
                        0 <= a < b < prev.len() ==> prev[a] != prev[b]);
                    assert forall|a: int, b: int|
                        0 <= a < b < acc@.len() implies acc@[a] != acc@[b] by {
                        if b == acc@.len() - 1 {
                            assert(acc@[a] == prev[a]);
                            assert(prev.contains(prev[a]));
                        }
                    }
                }
            }
        }
        proof {
            assert(part@.take(i + 1).drop_last() =~= part@.take(i as int));
            assert(part@.take(i + 1).last() == part@[i as int]);
            assert(part@.take(i + 1)[i as int] == part@[i as int]);
            assert(part@.take(i + 1).contains(loc));
            assert(acc@.contains(loc));
            assert forall|x: Loc|
                acc@.contains(x) <==> (old(acc)@.contains(x) || part@.take(i + 1).contains(
                    x,
                )) by {
                if part@.take(i + 1).contains(x) {
                    let w = choose|w: int| 0 <= w < i + 1 && #[trigger] part@.take(i + 1)[w] == x;
                    if w < i {
                        assert(part@.take(i as int)[w] == x);
                    } else {
                        assert(x == loc);
                    }
                }
                if part@.take(i as int).contains(x) {
                    let w = choose|w: int|
                        0 <= w < i && #[trigger] part@.take(i as int)[w] == x;
                    assert(part@.take(i + 1)[w] == x);
                }
                assert(prev.contains(x) <==> (old(acc)@.contains(x) || part@.take(
                    i as int,
                ).contains(x)));
                if present {
                    assert(acc@ == prev);
                    assert(prev.contains(loc));
                } else {
                    assert(acc@.contains(x) <==> (prev.contains(x) || x == loc));
                }
            }
        }
    }
    proof {
        assert(part@.take(n as int) =~= part@);
    }
}

/// The invariant of the joining loop: after the first `i` targets have
/// been merged, `out` satisfies `joined_ok` for the target prefix.
spec fn join_inv(targets: Seq<Target>, depss: Seq<Seq<Loc>>, i: int, out: Seq<JoinedDeps>) -> bool {
    &&& forall|a: int, b: int| 0 <= a < b < out.len() ==> (#[trigger] out[a]).local != (
    #[trigger] out[b]).local
    &&& forall|a: int| 0 <= a < out.len() ==> local_among(targets.take(i), (#[trigger] out[a]).local)
    &&& forall|x: int| 0 <= x < i ==> has_entry(out, (#[trigger] targets[x]).local)
    &&& forall|a: int| 0 <= a < out.len() ==> (#[trigger] out[a]).deps@.no_duplicates()
    &&& forall|a: int, loc: Loc|
        0 <= a < out.len() ==> (#[trigger] out[a].deps@.contains(loc) <==> spec_joined_contains(
            targets.take(i),
            depss,
            out[a].local,
            loc,
        ))
}

/// One merging step preserves the joining invariant: `before` extends the
/// entries with a fresh empty entry for a new local (or reuses the entry
/// of a seen one), and `after` replaces that entry's set by its union with
/// the dependency set of target `i`.
#[verifier::rlimit(60)]
proof fn lemma_join_step(
    targets: Seq<Target>,
    depss: Seq<Seq<Loc>>,
    i: int,
    at_entry: Seq<JoinedDeps>,
    before: Seq<JoinedDeps>,
    after: Seq<JoinedDeps>,
    idx: int,
    found: bool,
)
    requires
        targets.len() == depss.len(),
        0 <= i < targets.len(),
        join_inv(targets, depss, i, at_entry),
        found ==> before == at_entry && 0 <= idx < at_entry.len() && at_entry[idx].local
            == targets[i].local,
        !found ==> before.len() == at_entry.len() + 1 && idx == at_entry.len() && (forall|a: int|
            0 <= a < at_entry.len() ==> #[trigger] before[a] == at_entry[a]) && before[idx].local
            == targets[i].local && before[idx].deps@ == Seq::<Loc>::empty() && (forall|a: int|
            0 <= a < at_entry.len() ==> (#[trigger] at_entry[a]).local != targets[i].local),
        after.len() == before.len(),
        forall|a: int| 0 <= a < after.len() && a != idx ==> #[trigger] after[a] == before[a],
        after[idx].local == targets[i].local,
        after[idx].deps@.no_duplicates(),
        forall|loc: Loc|
            #[trigger] after[idx].deps@.contains(loc) <==> before[idx].deps@.contains(loc)
                || depss[i].contains(loc),
    ensures
        join_inv(targets, depss, i + 1, after),
{
    let l = targets[i].local;
    assert(targets.take(i + 1).drop_last() =~= targets.take(i));
    assert(targets.take(i + 1).last() == targets[i]);
    assert(targets.take(i + 1)[i] == targets[i]);
    assert(forall|w: int| 0 <= w < i ==> #[trigger] targets.take(i + 1)[w] == targets.take(i)[w]);
    // locals other than the one being merged keep their entries untouched
    assert forall|a: int| 0 <= a < after.len() && a != idx implies (#[trigger] after[a]).local
        != l by {
        if found {
            if a < idx {
                assert(at_entry[a].local != at_entry[idx].local);
            } else {
                assert(at_entry[idx].local != at_entry[a].local);
            }
        }
    }
    assert forall|a: int, b: int| 0 <= a < b < after.len() implies (#[trigger] after[a]).local != (
    #[trigger] after[b]).local by {
        if a != idx && b != idx {
            assert(at_entry[a].local != at_entry[b].local);
        } else if a == idx {
            assert(after[b].local != l);
        } else {
            assert(after[a].local != l);
        }
    }
    assert forall|a: int| 0 <= a < after.len() implies (
    #[trigger] after[a]).deps@.no_duplicates() by {
        if a != idx {
            assert(after[a] == before[a]);
        }
    }
    assert forall|a: int| 0 <= a < after.len() implies local_among(
        targets.take(i + 1),
        (#[trigger] after[a]).local,
    ) by {
        if a == idx {
            assert((targets.take(i + 1)[i]).local == after[a].local);
        } else {
            let x = choose|x: int|
                0 <= x < i && (#[trigger] targets.take(i)[x]).local == at_entry[a].local;
            assert((targets.take(i + 1)[x]).local == after[a].local);
        }
    }
    assert forall|x: int| 0 <= x < i + 1 implies has_entry(
        after,
        (#[trigger] targets[x]).local,
    ) by {
        if x == i {
            assert(after[idx].local == targets[x].local);
        } else {
            let a = choose|a: int|
                0 <= a < at_entry.len() && (#[trigger] at_entry[a]).local == targets[x].local;
            if a == idx {
                assert(after[idx].local == at_entry[idx].local == targets[x].local);
            } else {
                assert(after[a].local == targets[x].local);
            }
        }
    }
    assert forall|a: int, loc: Loc| 0 <= a < after.len() implies (#[trigger] after[a].deps@.contains(
        loc,
    ) <==> spec_joined_contains(targets.take(i + 1), depss, after[a].local, loc)) by {
        if a == idx {
            if after[a].deps@.contains(loc) {
                if found && before[idx].deps@.contains(loc) {
                    assert(at_entry[idx].deps@.contains(loc));
                    let w = choose|w: int|
                        0 <= w < targets.take(i).len() && (#[trigger] targets.take(i)[w]).local
                            == at_entry[idx].local && depss[w].contains(loc);
                    assert((targets.take(i + 1)[w]).local == l && depss[w].contains(loc));
                    assert(spec_joined_contains(targets.take(i + 1), depss, l, loc));
                } else {
                    assert(depss[i].contains(loc));
                    assert((targets.take(i + 1)[i]).local == l);
                    assert(spec_joined_contains(targets.take(i + 1), depss, l, loc));
                }
            }
            if spec_joined_contains(targets.take(i + 1), depss, after[a].local, loc) {
                let w = choose|w: int|
                    0 <= w < targets.take(i + 1).len() && (#[trigger] targets.take(i + 1)[w]).local
                        == l && depss[w].contains(loc);
                if w < i {
                    assert(targets.take(i)[w] == targets[w]);
                    if found {
                        assert(spec_joined_contains(targets.take(i), depss, at_entry[idx].local, loc));
                        assert(at_entry[idx].deps@.contains(loc));
                        assert(before[idx].deps@.contains(loc));
                    } else {
                        let b = choose|b: int|
                            0 <= b < at_entry.len() && (#[trigger] at_entry[b]).local
                                == targets[w].local;
                        assert(at_entry[b].local == l);
                        assert(false);
                    }
                } else {
                    assert(depss[i].contains(loc));
                }
                assert(after[a].deps@.contains(loc));
            }
        } else {
            assert(after[a] == before[a] && before[a] == at_entry[a]);
            assert(after[a].local != l);
            if after[a].deps@.contains(loc) {
                assert(spec_joined_contains(targets.take(i), depss, at_entry[a].local, loc));
                let w = choose|w: int|
                    0 <= w < targets.take(i).len() && (#[trigger] targets.take(i)[w]).local
                        == after[a].local && depss[w].contains(loc);
                assert((targets.take(i + 1)[w]).local == after[a].local && depss[w].contains(loc));
                assert(spec_joined_contains(targets.take(i + 1), depss, after[a].local, loc));
            }
            if spec_joined_contains(targets.take(i + 1), depss, after[a].local, loc) {
                let w = choose|w: int|
                    0 <= w < targets.take(i + 1).len() && (#[trigger] targets.take(i + 1)[w]).local
                        == after[a].local && depss[w].contains(loc);
                assert(w != i);
                assert(targets.take(i)[w] == targets[w]);
                assert(spec_joined_contains(targets.take(i), depss, after[a].local, loc));
                assert(at_entry[a].deps@.contains(loc));
            }
        }
    }
}

/// Merges the per-target-point dependency sets into one deduplicated set
/// per local: sets whose target points share a local are unioned, and the
/// locals appear in order of first appearance among the targets.
pub fn join_deps(targets: &Vec<Target>, deps: &Vec<Vec<Loc>>) -> (r: Vec<JoinedDeps>)
    requires
        targets@.len() == deps@.len(),
    ensures
        joined_ok(targets@, deps@.map_values(|d: Vec<Loc>| d@), r@),
{
    let ghost depss = deps@.map_values(|d: Vec<Loc>| d@);
    let n = targets.len();
    let mut out: Vec<JoinedDeps> = Vec::new();
    for i in 0..n
        invariant
            n == targets@.len(),
            deps@.len() == n,
            depss == deps@.map_values(|d: Vec<Loc>| d@),
            join_inv(targets@, depss, i as int, out@),
    {
        let ghost at_entry = out@;
        let l = targets[i].local;
        let mut pos: usize = 0;
        let m = out.len();
        let mut found = false;
        while pos < m
            invariant
                m == out@.len(),
                out@ == at_entry,
                l == targets@[i as int].local,
                i < n,
                n == targets@.len(),
                pos <= m,
                !found ==> forall|a: int| 0 <= a < pos ==> (#[trigger] out@[a]).local != l,
                found ==> pos < m && out@[pos as int].local == l,
            ensures
                m == out@.len(),
                out@ == at_entry,
                found ==> pos < m && out@[pos as int].local == l,
                !found ==> forall|a: int| 0 <= a < m ==> (#[trigger] out@[a]).local != l,
            decreases m - pos, (if found { 0int } else { 1int }),
        {
            if out[pos].local == l {
                found = true;
                break ;
            }
            pos = pos + 1;
        }
        if !found {
            out.push(JoinedDeps { local: l, deps: Vec::new() });
        }
        let idx = if found {
            pos
        } else {
            out.len() - 1
        };
        proof {
            assert(out@[idx as int].local == l);
        }
        let ghost before = out@;
        let mut merged: Vec<Loc> = Vec::new();
        let cur_len = out[idx].deps.len();
        for k in 0..cur_len
            invariant
                idx < out@.len(),
                out@ == before,
                cur_len == out@[idx as int].deps@.len(),
                merged@ == out@[idx as int].deps@.take(k as int),
        {
            merged.push(out[idx].deps[k]);
            proof {
                assert(merged@ =~= out@[idx as int].deps@.take(k + 1));
            }
        }
        proof {
            assert(merged@ =~= before[idx as int].deps@);
        }
        let ghost m_mid = merged@;
        proof {
            assert(before[idx as int].deps@.no_duplicates());
            assert(merged@.no_duplicates());
        }
        union_into(&mut merged, &deps[i]);
        let ghost m_done = merged@;
        out[idx] = JoinedDeps { local: l, deps: merged };
        proof {
            assert(out@ == before.update(idx as int, out@[idx as int]));
            assert(out@.len() == before.len());
            assert(forall|a: int|
                0 <= a < out@.len() && a != idx ==> #[trigger] out@[a] == before[a]);
            assert(out@[idx as int].local == l);
            assert(depss[i as int] == deps@[i as int]@);
            assert forall|loc: Loc| #[trigger] out@[idx as int].deps@.contains(loc)
                <==> before[idx as int].deps@.contains(loc) || depss[i as int].contains(loc) by {
                assert(m_mid == before[idx as int].deps@);
                assert(m_done.contains(loc) <==> m_mid.contains(loc) || deps@[
                    i as int
                ]@.contains(loc));
                assert(out@[idx as int].deps@ == m_done);
            }
            lemma_join_step(
                targets@,
                depss,
                i as int,
                at_entry,
                before,
                out@,
                idx as int,
                found,
            );
        }
    }
    proof {
        assert(targets@.take(n as int) =~= targets@);
        assert forall|a: int, loc: Loc|
            0 <= a < out@.len() implies (#[trigger] out@[a].deps@.contains(loc)
            <==> spec_joined_contains(targets@, depss, out@[a].local, loc)) by {
            assert(out@[a].deps@.contains(loc) <==> spec_joined_contains(
                targets@.take(n as int),
                depss,
                out@[a].local,
                loc,
            ));
        }
        assert(joined_ok(targets@, depss, out@));
    }
    out
}

/// The union holds every individual dependency set: the aggregated
/// relevance count of a local is at least the size of the set computed at
/// any single one of its target points, never less.
pub proof fn lemma_union_at_least_each(
    targets: Seq<Target>,
    deps: Seq<Seq<Loc>>,
    r: Seq<JoinedDeps>,
    a: int,
    i: int,
)
    requires
        targets.len() == deps.len(),
        joined_ok(targets, deps, r),
        0 <= a < r.len(),
        0 <= i < targets.len(),
        targets[i].local == r[a].local,
    ensures
        r[a].deps@.len() >= deps[i].to_set().len(),
{
    broadcast use vstd::seq_lib::group_seq_properties;

    let joined = r[a].deps@;
    assert forall|loc: Loc| deps[i].to_set().contains(loc) implies joined.to_set().contains(
        loc,
    ) by {
        assert(deps[i].contains(loc));
        assert(spec_joined_contains(targets, deps, r[a].local, loc));
        assert(joined.contains(loc));
    }
    assert(deps[i].to_set().subset_of(joined.to_set()));
    joined.unique_seq_to_set();
    lemma_len_subset(deps[i].to_set(), joined.to_set());
}

} // verus!
