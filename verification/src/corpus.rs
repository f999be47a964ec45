//! Corpus post-processing: the per-group lookups a downstream consumer
//! performs on the finished rows — the minimum-relevance row of a group
//! as a normalisation baseline, and the row of the designated default
//! configuration.  The fractional deltas derived from them are floating
//! point and are computed outside the library.

use vstd::prelude::*;

use crate::config::spec_default_mode;
use crate::runner::EvalResult;

verus! {

/// Whether a row was measured under the default configuration.
pub open spec fn is_default_row(r: EvalResult) -> bool {
    r.mutability_mode == spec_default_mode().mutability_mode && r.context_mode
        == spec_default_mode().context_mode && r.pointer_mode == spec_default_mode().pointer_mode
}

/// The index of the first row with the smallest relevance count, or
/// `None` for an empty group.
pub fn min_relevant_index(rows: &Vec<EvalResult>) -> (r: Option<usize>)
    ensures
        match r {
            Some(w) => {
                &&& w < rows@.len()
                &&& forall|i: int|
                    0 <= i < rows@.len() ==> rows@[w as int].num_relevant_instructions <= (
                    #[trigger] rows@[i]).num_relevant_instructions
                &&& forall|i: int|
                    0 <= i < w ==> (#[trigger] rows@[i]).num_relevant_instructions > rows@[
                        w as int
                    ].num_relevant_instructions
            },
            None => rows@.len() == 0,
        },
{
    let n = rows.len();
    if n == 0 {
        return None;
    }
    let mut best: usize = 0;
    for i in 1..n
        invariant
            n == rows@.len(),
            best < i <= n,
            forall|k: int|
                0 <= k < i ==> rows@[best as int].num_relevant_instructions <= (
                #[trigger] rows@[k]).num_relevant_instructions,
            forall|k: int|
                0 <= k < best ==> (#[trigger] rows@[k]).num_relevant_instructions > rows@[
                    best as int
                ].num_relevant_instructions,
    {
        if rows[i].num_relevant_instructions < rows[best].num_relevant_instructions {
            best = i;
        }
    }
    Some(best)
}

/// The index of the first row measured under the default configuration,
/// or `None` when the group has no such row; the driver guarantees one
/// whenever the default configuration was among the evaluated runs.
pub fn baseline_index(rows: &Vec<EvalResult>) -> (r: Option<usize>)
    ensures
        match r {
            Some(w) => w < rows@.len() && is_default_row(rows@[w as int]) && forall|i: int|
                0 <= i < w ==> !is_default_row(#[trigger] rows@[i]),
            None => forall|i: int| 0 <= i < rows@.len() ==> !is_default_row(#[trigger] rows@[i]),
        },
{
    let n = rows.len();
    for i in 0..n
        invariant
            n == rows@.len(),
            forall|k: int| 0 <= k < i ==> !is_default_row(#[trigger] rows@[k]),
    {
        let row = &rows[i];
        let d = crate::config::default_mode();
        if row.mutability_mode == d.mutability_mode && row.context_mode == d.context_mode
            && row.pointer_mode == d.pointer_mode {
            return Some(i);
        }
    }
    None
}

} // verus!
