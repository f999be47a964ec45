//! Target-point selection: the (entity, program-location) pairs whose
//! dependency sets a body's analysis measures.

use vstd::prelude::*;

use crate::body::Loc;

verus! {

/// One target point: a storage slot (local) paired with the program
/// location at which its dependency set is queried.
#[derive(Debug, Clone, Copy, PartialEq, Eq, Structural)]
pub struct Target {
    pub local: usize,
    pub loc: Loc,
}

/// The exit-local policy: every local paired with every body exit, locals
/// outermost, so entry `i·|exits| + j` pairs local `i` with exit `j`.
pub fn exit_local_targets(num_locals: usize, exits: &Vec<Loc>) -> (r: Vec<Target>)
    requires
        num_locals * exits@.len() <= usize::MAX,
    ensures
        r@.len() == num_locals * exits@.len(),
        forall|i: int, j: int|
            0 <= i < num_locals && 0 <= j < exits@.len() ==> #[trigger] r@[i * exits@.len() + j] == (Target {
                local: i as usize,
                loc: exits@[j],
            }),
{
    let ne = exits.len();
    let mut out: Vec<Target> = Vec::new();
    proof {
        assert(0 * ne == 0) by (nonlinear_arith);
    }
    for i in 0..num_locals
        invariant
            ne == exits@.len(),
            num_locals * ne <= usize::MAX,
            out@.len() == i * ne,
            forall|x: int, y: int|
                0 <= x < i && 0 <= y < ne ==> #[trigger] out@[x * ne + y] == (Target {
                    local: x as usize,
                    loc: exits@[y],
                }),
    {
        proof {
            assert(i * ne + ne <= num_locals * ne) by (nonlinear_arith)
                requires
                    0 <= i < num_locals,
                    0 <= ne,
            ;
        }
        for j in 0..ne
            invariant
                ne == exits@.len(),
                i < num_locals,
                i * ne + ne <= num_locals * ne <= usize::MAX,
                out@.len() == i * ne + j,
                forall|x: int, y: int|
                    0 <= x < i && 0 <= y < ne ==> #[trigger] out@[x * ne + y] == (Target {
                        local: x as usize,
                        loc: exits@[y],
                    }),
                forall|y: int|
                    0 <= y < j ==> #[trigger] out@[i * ne + y] == (Target {
                        local: i as usize,
                        loc: exits@[y],
                    }),
        {
            let ghost before = out@;
            out.push(Target { local: i, loc: exits[j] });
            proof {
                assert forall|x: int, y: int|
                    0 <= x < i && 0 <= y < ne implies #[trigger] out@[x * ne + y] == (Target {
                    local: x as usize,
                    loc: exits@[y],
                }) by {
                    assert(x * ne + y < i * ne) by (nonlinear_arith)
                        requires
                            0 <= x < i,
                            0 <= y < ne,
                    ;
                    assert(before[x * ne + y] == (Target { local: x as usize, loc: exits@[y] }));
                }
            }
        }
        proof {
            assert((i + 1) * ne == i * ne + ne) by (nonlinear_arith);
        }
    }
    out
}

/// One instruction that writes: its location and the distinct locals
/// assigned at it (an assignment's left-hand side, or a call's output
/// destination).
#[derive(Debug, Clone)]
pub struct WriteSite {
    pub loc: Loc,
    pub lhs_locals: Vec<usize>,
}

/// The targets of the write-site policy: one per assigned local per
/// writing instruction, in program order.
pub open spec fn spec_write_targets(sites: Seq<WriteSite>) -> Seq<Target>
    decreases sites.len(),
{
    if sites.len() == 0 {
        Seq::empty()
    } else {
        spec_write_targets(sites.drop_last()) + sites.last().lhs_locals@.map_values(
            |l: usize| Target { local: l, loc: sites.last().loc },
        )
    }
}

/// The write-site policy: for every instruction that assigns, one target
/// per assigned left-hand side at that instruction's location.
pub fn write_site_targets(sites: &Vec<WriteSite>) -> (r: Vec<Target>)
    ensures
        r@ == spec_write_targets(sites@),
{
    let n = sites.len();
    let mut out: Vec<Target> = Vec::new();
    for i in 0..n
        invariant
            n == sites@.len(),
            out@ == spec_write_targets(sites@.take(i as int)),
    {
        let site = &sites[i];
        let m = site.lhs_locals.len();
        let ghost base = out@;
        for k in 0..m
            invariant
                n == sites@.len(),
                i < n,
                m == site.lhs_locals@.len(),
                site == sites@[i as int],
                out@ == base + site.lhs_locals@.take(k as int).map_values(
                    |l: usize| Target { local: l, loc: site.loc },
                ),
        {
            out.push(Target { local: site.lhs_locals[k], loc: site.loc });
            proof {
                assert(out@ =~= base + site.lhs_locals@.take(k + 1).map_values(
                    |l: usize| Target { local: l, loc: site.loc },
                ));
            }
        }
        proof {
            assert(site.lhs_locals@.take(m as int) =~= site.lhs_locals@);
            assert(sites@.take(i + 1).drop_last() =~= sites@.take(i as int));
            assert(sites@.take(i + 1).last() == sites@[i as int]);
            assert(out@ =~= spec_write_targets(sites@.take(i + 1)));
        }
    }
    proof {
        assert(sites@.take(n as int) =~= sites@);
    }
    out
}

} // verus!
