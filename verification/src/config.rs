//! Configuration axes of the analysis and their Cartesian product.
//!
//! Every axis is a finite, totally ordered set of values; the matrix of
//! configurations evaluated per body is the Cartesian product of the
//! axes, enumerated in a fixed order so that runs are reproducible.

use vstd::prelude::*;

verus! {

/// Whether the analysis distinguishes mutable from immutable pointers.
#[derive(Debug, Clone, Copy, PartialEq, Eq, Structural)]
pub enum MutabilityMode {
    DistinguishMut,
    IgnoreMut,
}

/// How calls are treated: recurse into callees or use signatures only.
#[derive(Debug, Clone, Copy, PartialEq, Eq, Structural)]
pub enum ContextMode {
    Recurse,
    SigOnly,
}

/// How precisely pointers are tracked.
#[derive(Debug, Clone, Copy, PartialEq, Eq, Structural)]
pub enum PointerMode {
    Precise,
    Conservative,
}

/// The direction of a dependency query.
#[derive(Debug, Clone, Copy, PartialEq, Eq, Structural)]
pub enum Direction {
    Forward,
    Backward,
    Both,
}

/// One point of the three-axis configuration matrix.
#[derive(Debug, Clone, Copy, PartialEq, Eq, Structural)]
pub struct EvalMode {
    pub mutability_mode: MutabilityMode,
    pub context_mode: ContextMode,
    pub pointer_mode: PointerMode,
}

/// The designated default configuration, guaranteed to appear in every
/// evaluated matrix so that downstream baseline lookups never fail.
pub open spec fn spec_default_mode() -> EvalMode {
    EvalMode {
        mutability_mode: MutabilityMode::DistinguishMut,
        context_mode: ContextMode::SigOnly,
        pointer_mode: PointerMode::Precise,
    }
}

pub fn default_mode() -> (m: EvalMode)
    ensures
        m == spec_default_mode(),
{
    EvalMode {
        mutability_mode: MutabilityMode::DistinguishMut,
        context_mode: ContextMode::SigOnly,
        pointer_mode: PointerMode::Precise,
    }
}

/// The Cartesian product of three axes, enumerated with the first axis
/// outermost: entry `(i·|b| + j)·|c| + k` is `(a[i], b[j], c[k])`.
pub fn cartesian_product<A: Copy, B: Copy, C: Copy>(a: &Vec<A>, b: &Vec<B>, c: &Vec<C>) -> (r: Vec<
    (A, B, C),
>)
    requires
        a@.len() * b@.len() * c@.len() <= usize::MAX,
    ensures
        r@.len() == a@.len() * b@.len() * c@.len(),
        forall|i: int, j: int, k: int|
            0 <= i < a@.len() && 0 <= j < b@.len() && 0 <= k < c@.len() ==> r@[(i * b@.len() + j)
                * c@.len() + k] == (a@[i], b@[j], c@[k]),
{
    let na = a.len();
    let nb = b.len();
    let nc = c.len();
    let mut out: Vec<(A, B, C)> = Vec::new();
    proof {
        assert(0 * nb * nc == 0) by (nonlinear_arith);
    }
    for i in 0..na
        invariant
            na == a@.len(),
            nb == b@.len(),
            nc == c@.len(),
            na * nb * nc <= usize::MAX,
            out@.len() == i * nb * nc,
            forall|x: int, y: int, z: int|
                0 <= x < i && 0 <= y < nb && 0 <= z < nc ==> out@[(x * nb + y) * nc + z] == (
                a@[x],
                b@[y],
                c@[z],
            ),
    {
        proof {
            assert(i * nb * nc + nb * nc <= na * nb * nc) by (nonlinear_arith)
                requires
                    0 <= i < na,
                    0 <= nb,
                    0 <= nc,
            ;
            assert(0 * nc == 0) by (nonlinear_arith);
        }
        for j in 0..nb
            invariant
                na == a@.len(),
                nb == b@.len(),
                nc == c@.len(),
                i < na,
                i * nb * nc + nb * nc <= na * nb * nc <= usize::MAX,
                out@.len() == i * nb * nc + j * nc,
                forall|x: int, y: int, z: int|
                    0 <= x < i && 0 <= y < nb && 0 <= z < nc ==> out@[(x * nb + y) * nc + z] == (
                    a@[x],
                    b@[y],
                    c@[z],
                ),
                forall|y: int, z: int|
                    0 <= y < j && 0 <= z < nc ==> out@[(i * nb + y) * nc + z] == (
                    a@[i as int],
                    b@[y],
                    c@[z],
                ),
        {
            proof {
                assert(j * nc + nc <= nb * nc) by (nonlinear_arith)
                    requires
                        0 <= j < nb,
                        0 <= nc,
                ;
            }
            for k in 0..nc
                invariant
                    na == a@.len(),
                    nb == b@.len(),
                    nc == c@.len(),
                    i < na,
                    j < nb,
                    i * nb * nc + nb * nc <= na * nb * nc <= usize::MAX,
                    j * nc + nc <= nb * nc,
                    out@.len() == i * nb * nc + j * nc + k,
                    forall|x: int, y: int, z: int|
                        0 <= x < i && 0 <= y < nb && 0 <= z < nc ==> out@[(x * nb + y) * nc + z]
                            == (a@[x], b@[y], c@[z]),
                    forall|y: int, z: int|
                        0 <= y < j && 0 <= z < nc ==> out@[(i * nb + y) * nc + z] == (
                        a@[i as int],
                        b@[y],
                        c@[z],
                        ),
                    forall|z: int|
                        0 <= z < k ==> out@[(i * nb + j) * nc + z] == (
                        a@[i as int],
                        b@[j as int],
                        c@[z],
                        ),
            {
                proof {
                    assert((i * nb + j) * nc + k == i * nb * nc + j * nc + k) by (nonlinear_arith);
                }
                let ghost before = out@;
                out.push((a[i], b[j], c[k]));
                proof {
                    assert forall|z: int|
                        0 <= z < k + 1 implies out@[(i * nb + j) * nc + z] == (
                        a@[i as int],
                        b@[j as int],
                        c@[z],
                    ) by {
                        assert((i * nb + j) * nc + z == i * nb * nc + j * nc + z)
                            by (nonlinear_arith);
                        if z < k {
                            assert(before[(i * nb + j) * nc + z] == (
                                a@[i as int],
                                b@[j as int],
                                c@[z],
                            ));
                        }
                    }
                    assert forall|x: int, y: int, z: int|
                        0 <= x < i && 0 <= y < nb && 0 <= z < nc implies out@[(x * nb + y) * nc
                        + z] == (a@[x], b@[y], c@[z]) by {
                        assert((x * nb + y) * nc + z < i * nb * nc) by (nonlinear_arith)
                            requires
                                0 <= x < i,
                                0 <= y < nb,
                                0 <= z < nc,
                                0 <= i,
                        ;
                        assert(before[(x * nb + y) * nc + z] == (a@[x], b@[y], c@[z]));
                    }
                    assert forall|y: int, z: int|
                        0 <= y < j && 0 <= z < nc implies out@[(i * nb + y) * nc + z] == (
                        a@[i as int],
                        b@[y],
                        c@[z],
                    ) by {
                        assert((i * nb + y) * nc + z < i * nb * nc + j * nc) by (nonlinear_arith)
                            requires
                                0 <= y < j,
                                0 <= z < nc,
                                0 <= i,
                                0 <= nb,
                                j <= nb,
                        ;
                        assert(before[(i * nb + y) * nc + z] == (a@[i as int], b@[y], c@[z]));
                    }
                }
            }
            proof {
                assert((j + 1) * nc == j * nc + nc) by (nonlinear_arith);
                assert forall|y: int, z: int|
                    0 <= y < j + 1 && 0 <= z < nc implies out@[(i * nb + y) * nc + z] == (
                    a@[i as int],
                    b@[y],
                    c@[z],
                ) by {
                    if y == j {
                        assert(out@[(i * nb + j) * nc + z] == (a@[i as int], b@[j as int], c@[z]));
                    }
                }
            }
        }
        proof {
            assert((i + 1) * nb * nc == i * nb * nc + nb * nc) by (nonlinear_arith);
            assert forall|x: int, y: int, z: int|
                0 <= x < i + 1 && 0 <= y < nb && 0 <= z < nc implies out@[(x * nb + y) * nc + z]
                == (a@[x], b@[y], c@[z]) by {
                if x == i {
                    assert(out@[(i * nb + y) * nc + z] == (a@[i as int], b@[y], c@[z]));
                }
            }
        }
    }
    out
}

/// The values of the mutability axis, in evaluation order.
pub fn mutability_axis() -> (r: Vec<MutabilityMode>)
    ensures
        r@ =~= seq![MutabilityMode::DistinguishMut, MutabilityMode::IgnoreMut],
{
    let mut v = Vec::new();
    v.push(MutabilityMode::DistinguishMut);
    v.push(MutabilityMode::IgnoreMut);
    v
}

/// The values of the call-context axis, in evaluation order.
pub fn context_axis() -> (r: Vec<ContextMode>)
    ensures
        r@ =~= seq![ContextMode::Recurse, ContextMode::SigOnly],
{
    let mut v = Vec::new();
    v.push(ContextMode::Recurse);
    v.push(ContextMode::SigOnly);
    v
}

/// The values of the pointer-precision axis, in evaluation order.
pub fn pointer_axis() -> (r: Vec<PointerMode>)
    ensures
        r@ =~= seq![PointerMode::Precise, PointerMode::Conservative],
{
    let mut v = Vec::new();
    v.push(PointerMode::Precise);
    v.push(PointerMode::Conservative);
    v
}

/// The values of the direction axis, in evaluation order.
pub fn direction_axis() -> (r: Vec<Direction>)
    ensures
        r@ =~= seq![Direction::Forward, Direction::Backward, Direction::Both],
{
    let mut v = Vec::new();
    v.push(Direction::Forward);
    v.push(Direction::Backward);
    v.push(Direction::Both);
    v
}

/// The full configuration matrix over the three analysis axes: every
/// combination appears exactly once, in a fixed order.
pub fn all_modes() -> (r: Vec<EvalMode>)
    ensures
        r@.len() == 8,
        forall|m1: int, m2: int| 0 <= m1 < m2 < r@.len() ==> r@[m1] != r@[m2],
        forall|m: EvalMode| r@.contains(m),
        r@.contains(spec_default_mode()),
{
    let muts = mutability_axis();
    let ctxs = context_axis();
    let ptrs = pointer_axis();
    let triples = cartesian_product(&muts, &ctxs, &ptrs);
    let mut out: Vec<EvalMode> = Vec::new();
    let n = triples.len();
    for t in 0..n
        invariant
            n == triples@.len(),
            out@.len() == t,
            forall|x: int|
                0 <= x < t ==> #[trigger] out@[x] == (EvalMode {
                    mutability_mode: triples@[x].0,
                    context_mode: triples@[x].1,
                    pointer_mode: triples@[x].2,
                }),
    {
        let (m, c, p) = triples[t];
        out.push(EvalMode { mutability_mode: m, context_mode: c, pointer_mode: p });
    }
    proof {
        let tr = triples@;
        assert(2 * 2 * 2 == 8) by (nonlinear_arith);
        assert(tr.len() == muts@.len() * ctxs@.len() * ptrs@.len());
        assert(out@.len() == 8);
        assert forall|mm: MutabilityMode, cc: ContextMode, pp: PointerMode|
            out@.contains(
                EvalMode { mutability_mode: mm, context_mode: cc, pointer_mode: pp },
            ) by {
            let i: int = if mm == MutabilityMode::DistinguishMut {
                0
            } else {
                1
            };
            let j: int = if cc == ContextMode::Recurse {
                0
            } else {
                1
            };
            let k: int = if pp == PointerMode::Precise {
                0
            } else {
                1
            };
            assert(tr[(i * ctxs@.len() + j) * ptrs@.len() + k] == (muts@[i], ctxs@[j], ptrs@[k]));
            assert((i * ctxs@.len() + j) * ptrs@.len() + k == (i * 2 + j) * 2 + k);
            assert(out@[(i * 2 + j) * 2 + k] == (EvalMode {
                mutability_mode: mm,
                context_mode: cc,
                pointer_mode: pp,
            }));
            assert(out@.contains(out@[(i * 2 + j) * 2 + k]));
        }
        assert forall|m: EvalMode| out@.contains(m) by {
            assert(out@.contains(
                EvalMode {
                    mutability_mode: m.mutability_mode,
                    context_mode: m.context_mode,
                    pointer_mode: m.pointer_mode,
                },
            ));
        }
        assert forall|m1: int, m2: int| 0 <= m1 < m2 < out@.len() implies out@[m1] != out@[m2] by {
            let x1 = m1 / 4;
            let y1 = (m1 / 2) % 2;
            let z1 = m1 % 2;
            let x2 = m2 / 4;
            let y2 = (m2 / 2) % 2;
            let z2 = m2 % 2;
            assert((x1 * 2 + y1) * 2 + z1 == m1);
            assert((x2 * 2 + y2) * 2 + z2 == m2);
            assert((x1 * ctxs@.len() + y1) * ptrs@.len() + z1 == m1);
            assert((x2 * ctxs@.len() + y2) * ptrs@.len() + z2 == m2);
            assert(tr[(x1 * ctxs@.len() + y1) * ptrs@.len() + z1] == (
                muts@[x1],
                ctxs@[y1],
                ptrs@[z1],
            ));
            assert(tr[(x2 * ctxs@.len() + y2) * ptrs@.len() + z2] == (
                muts@[x2],
                ctxs@[y2],
                ptrs@[z2],
            ));
        }
        assert(out@.contains(spec_default_mode()));
    }
    out
}

} // verus!
