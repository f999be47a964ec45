//! The configuration-matrix runner: for one body it turns the dependency
//! sets reported by the slicing engine, one invocation per configuration,
//! into output rows, and accumulates all rows of a run into the corpus.
//!
//! The engine itself is an external collaborator.  Each invocation's
//! outcome arrives here as plain values (one dependency set per target
//! point, the wall-clock duration measured around the invocation alone,
//! and whether the computation crossed into unanalysed library code), and
//! everything derived from those values is verified.

use vstd::prelude::*;

use crate::aggregate::{join_deps, joined_ok, local_among, spec_joined_contains, JoinedDeps};
use crate::lines::{collect_lines, line_iqr, lines_result_ok, spec_line_iqr};
use crate::tokens::{batch_result_ok, Tokens};
use crate::body::{body_ptr_stats, CallInfo, Loc, PtrInfo, PtrStats, Restriction};
use crate::config::{spec_default_mode, Direction, EvalMode};
use crate::span::{Range, Span};
use crate::targets::{exit_local_targets, Target};

verus! {

/// One output row of the corpus: the analysed function's metrics, the
/// configuration evaluated, the measured entity, and its relevance
/// metrics.
#[derive(Debug, Clone, PartialEq, Eq)]
pub struct EvalResult {
    pub mutability_mode: crate::config::MutabilityMode,
    pub context_mode: crate::config::ContextMode,
    pub pointer_mode: crate::config::PointerMode,
    pub direction: Direction,
    pub sliced_local: usize,
    pub function_range: Range,
    pub function_path: String,
    pub num_instructions: usize,
    pub num_tokens: usize,
    pub num_lines: usize,
    pub num_relevant_instructions: usize,
    pub num_relevant_tokens: usize,
    pub num_relevant_lines: usize,
    pub line_iqr: usize,
    pub duration_nanos: u64,
    pub has_immut_ptr_in_call: bool,
    pub has_same_type_ptrs_in_call: bool,
    pub has_same_type_ptrs_in_input: bool,
    pub reached_library: bool,
}

/// The function-level data shared by every row of one body.
#[derive(Debug, Clone)]
pub struct FunctionRecord {
    pub path: String,
    pub range: Range,
    pub num_instructions: usize,
    pub num_tokens: usize,
    pub num_lines: usize,
}

/// What one engine invocation returned: the configuration it ran under,
/// one dependency set per target point, the wall-clock duration of the
/// invocation alone, and whether it reached uninstrumented library code.
#[derive(Debug, Clone)]
pub struct EngineRun {
    pub mode: EvalMode,
    pub direction: Direction,
    pub deps: Vec<Vec<Loc>>,
    pub duration_nanos: u64,
    pub reached_library: bool,
}

/// The row recorded for one entity under one configuration.
pub open spec fn spec_row(
    func: FunctionRecord,
    stats: PtrStats,
    mode: EvalMode,
    direction: Direction,
    duration_nanos: u64,
    reached_library: bool,
    local: usize,
    relevant: usize,
) -> EvalResult {
    EvalResult {
        mutability_mode: mode.mutability_mode,
        context_mode: mode.context_mode,
        pointer_mode: mode.pointer_mode,
        direction,
        sliced_local: local,
        function_range: func.range,
        function_path: func.path,
        num_instructions: func.num_instructions,
        num_tokens: func.num_tokens,
        num_lines: func.num_lines,
        num_relevant_instructions: relevant,
        num_relevant_tokens: 0,
        num_relevant_lines: 0,
        line_iqr: 0,
        duration_nanos,
        has_immut_ptr_in_call: stats.has_immut_ptr_in_call,
        has_same_type_ptrs_in_call: stats.has_same_type_ptrs_in_call,
        has_same_type_ptrs_in_input: stats.has_same_type_ptrs_in_input,
        reached_library,
    }
}

/// The rows of one engine invocation: one per aggregated entity, whose
/// relevance count is the size of that entity's deduplicated union.
pub open spec fn spec_rows(
    func: FunctionRecord,
    stats: PtrStats,
    mode: EvalMode,
    direction: Direction,
    duration_nanos: u64,
    reached_library: bool,
    joined: Seq<JoinedDeps>,
) -> Seq<EvalResult> {
    joined.map_values(
        |e: JoinedDeps|
            spec_row(
                func,
                stats,
                mode,
                direction,
                duration_nanos,
                reached_library,
                e.local,
                e.deps@.len() as usize,
            ),
    )
}

/// Builds the rows of one engine invocation from its aggregated entities.
pub fn mode_rows(
    func: &FunctionRecord,
    stats: PtrStats,
    mode: EvalMode,
    direction: Direction,
    duration_nanos: u64,
    reached_library: bool,
    joined: &Vec<JoinedDeps>,
) -> (r: Vec<EvalResult>)
    ensures
        r@ == spec_rows(*func, stats, mode, direction, duration_nanos, reached_library, joined@),
{
    let n = joined.len();
    let mut out: Vec<EvalResult> = Vec::new();
    for k in 0..n
        invariant
            n == joined@.len(),
            out@ =~= spec_rows(
                *func,
                stats,
                mode,
                direction,
                duration_nanos,
                reached_library,
                joined@.take(k as int),
            ),
    {
        let e = &joined[k];
        out.push(
            EvalResult {
                mutability_mode: mode.mutability_mode,
                context_mode: mode.context_mode,
                pointer_mode: mode.pointer_mode,
                direction,
                sliced_local: e.local,
                function_range: func.range.clone(),
                function_path: func.path.clone(),
                num_instructions: func.num_instructions,
                num_tokens: func.num_tokens,
                num_lines: func.num_lines,
                num_relevant_instructions: e.deps.len(),
                num_relevant_tokens: 0,
                num_relevant_lines: 0,
                line_iqr: 0,
                duration_nanos,
                has_immut_ptr_in_call: stats.has_immut_ptr_in_call,
                has_same_type_ptrs_in_call: stats.has_same_type_ptrs_in_call,
                has_same_type_ptrs_in_input: stats.has_same_type_ptrs_in_input,
                reached_library,
            },
        );
        proof {
            assert(out@ =~= spec_rows(
                *func,
                stats,
                mode,
                direction,
                duration_nanos,
                reached_library,
                joined@.take(k + 1),
            ));
        }
    }
    proof {
        assert(joined@.take(n as int) =~= joined@);
    }
    out
}

/// The exit-local target matrix as a sequence: entry `i·|exits| + j`
/// pairs local `i` with exit `j`.
pub open spec fn spec_exit_targets(num_locals: int, exits: Seq<Loc>) -> Seq<Target> {
    Seq::new(
        (num_locals * exits.len()) as nat,
        |p: int|
            Target {
                local: (p / exits.len() as int) as usize,
                loc: exits[p % exits.len() as int],
            },
    )
}

/// The exit-local targets produced by the selector are exactly the target
/// matrix in its evaluation order.
pub proof fn lemma_exit_targets_eq(num_locals: usize, exits: Seq<Loc>, r: Seq<Target>)
    requires
        exits.len() > 0,
        r.len() == num_locals * exits.len(),
        forall|i: int, j: int|
            0 <= i < num_locals && 0 <= j < exits.len() ==> #[trigger] r[i * exits.len() + j]
                == (Target { local: i as usize, loc: exits[j] }),
    ensures
        r == spec_exit_targets(num_locals as int, exits),
{
    let ne = exits.len() as int;
    assert forall|p: int| 0 <= p < r.len() implies r[p] == spec_exit_targets(
        num_locals as int,
        exits,
    )[p] by {
        let i = p / ne;
        let j = p % ne;
        vstd::arithmetic::div_mod::lemma_fundamental_div_mod(p, ne);
        assert(p == ne * (p / ne) + p % ne);
        assert(i * ne + j == p) by (nonlinear_arith)
            requires
                p == ne * i + j,
        ;
        assert(0 <= j < ne);
        assert(i < num_locals) by (nonlinear_arith)
            requires
                p < num_locals * ne,
                p == ne * i + j,
                0 <= j < ne,
                ne > 0,
                0 <= i,
        ;
        assert(r[i * ne + j] == (Target { local: i as usize, loc: exits[j] }));
    }
    assert(r =~= spec_exit_targets(num_locals as int, exits));
}

/// The result accumulator: counts the bodies seen, carries the optional
/// single-body restriction, and collects every produced row; the corpus
/// is serialized once, at the end of a run.
pub struct EvalCrateVisitor {
    pub restriction: Restriction,
    pub count: usize,
    pub total: usize,
    pub eval_results: Vec<EvalResult>,
}

impl EvalCrateVisitor {
    /// A fresh accumulator for a program with `total` eligible bodies,
    /// with no body restriction.
    pub fn new(total: usize) -> (v: EvalCrateVisitor)
        ensures
            v.count == 0,
            v.total == total,
            v.eval_results@ == Seq::<EvalResult>::empty(),
            v.restriction is All,
    {
        EvalCrateVisitor {
            restriction: Restriction::All,
            count: 0,
            total,
            eval_results: Vec::new(),
        }
    }

    /// Restricts the run to a single body.
    pub fn set_restriction(&mut self, r: Restriction)
        ensures
            final(self).restriction == r,
            final(self).count == old(self).count,
            final(self).total == old(self).total,
            final(self).eval_results == old(self).eval_results,
    {
        self.restriction = r;
    }

    /// Analyses one eligible body from the engine's reported runs: builds
    /// the exit-local targets, aggregates each run's dependency sets per
    /// local, and appends one row per (configuration, local).
    ///
    /// The body is numbered first, so skipped bodies keep their ordinal.
    /// It is skipped without side effects when the restriction does not
    /// select it, and abandoned entirely (no partial records) when its
    /// defining span cannot be converted to an output range against its
    /// source buffer of `buffer_len` characters.
    pub fn analyze_body(
        &mut self,
        path: &String,
        span: &Span,
        filename: &String,
        buffer_len: usize,
        num_instructions: usize,
        num_tokens: usize,
        num_lines: usize,
        num_locals: usize,
        exits: &Vec<Loc>,
        input_ptrs: &Vec<PtrInfo>,
        calls: &Vec<CallInfo>,
        runs: &Vec<EngineRun>,
    ) -> (analyzed: bool)
        requires
            old(self).count < usize::MAX,
            num_locals * exits@.len() <= usize::MAX,
            forall|k: int|
                0 <= k < runs@.len() ==> (#[trigger] runs@[k]).deps@.len() == num_locals
                    * exits@.len(),
        ensures
            final(self).count == old(self).count + 1,
            final(self).total == old(self).total,
            final(self).restriction == old(self).restriction,
            analyzed == (crate::body::spec_selected(
                old(self).restriction,
                (old(self).count + 1) as usize,
                path@,
            ) && span.lo <= span.hi && span.hi <= buffer_len),
            !analyzed ==> final(self).eval_results == old(self).eval_results,
            analyzed ==> exists|js: Seq<Seq<JoinedDeps>>|
                #[trigger] spec_runs_joined(
                    spec_exit_targets(num_locals as int, exits@),
                    runs@,
                    js,
                ) && final(self).eval_results@ == old(self).eval_results@ + spec_all_rows(
                    FunctionRecord {
                        path: *path,
                        range: Range { start: span.lo, end: span.hi, filename: *filename },
                        num_instructions,
                        num_tokens,
                        num_lines,
                    },
                    spec_body_stats(input_ptrs@, calls@),
                    runs@,
                    js,
                ),
    {
        self.count = self.count + 1;
        if !self.restriction.selected(self.count, path) {
            return false;
        }
        let range = match Range::from_span(span, filename, buffer_len) {
            Some(r) => r,
            None => {
                return false;
            },
        };
        let func = FunctionRecord {
            path: path.clone(),
            range,
            num_instructions,
            num_tokens,
            num_lines,
        };
        let stats = body_ptr_stats(input_ptrs, calls);
        let targets = exit_local_targets(num_locals, exits);
        proof {
            if exits@.len() > 0 {
                lemma_exit_targets_eq(num_locals, exits@, targets@);
            } else {
                assert(num_locals * exits@.len() == 0) by (nonlinear_arith)
                    requires
                        exits@.len() == 0,
                ;
                assert(targets@ =~= spec_exit_targets(num_locals as int, exits@));
            }
        }
        let nr = runs.len();
        let ghost mut js: Seq<Seq<JoinedDeps>> = Seq::empty();
        let ghost base = self.eval_results@;
        let ghost spec_func = FunctionRecord {
            path: *path,
            range: Range { start: span.lo, end: span.hi, filename: *filename },
            num_instructions,
            num_tokens,
            num_lines,
        };
        for k in 0..nr
            invariant
                nr == runs@.len(),
                targets@ == spec_exit_targets(num_locals as int, exits@),
                func.path == spec_func.path,
                func.range == spec_func.range,
                func.num_instructions == spec_func.num_instructions,
                func.num_tokens == spec_func.num_tokens,
                func.num_lines == spec_func.num_lines,
                stats == spec_body_stats(input_ptrs@, calls@),
                forall|w: int|
                    0 <= w < runs@.len() ==> (#[trigger] runs@[w]).deps@.len() == targets@.len(),
                js.len() == k,
                forall|w: int|
                    0 <= w < k ==> joined_ok(
                        targets@,
                        (#[trigger] runs@[w]).deps@.map_values(|d: Vec<Loc>| d@),
                        js[w],
                    ),
                self.eval_results@ == base + spec_all_rows(spec_func, stats, runs@.take(k as int), js),
                self.count == old(self).count + 1,
                self.total == old(self).total,
                self.restriction == old(self).restriction,
        {
            let run = &runs[k];
            let joined = join_deps(&targets, &run.deps);
            let mut rows = mode_rows(
                &func,
                stats,
                run.mode,
                run.direction,
                run.duration_nanos,
                run.reached_library,
                &joined,
            );
            let ghost prev_js = js;
            let ghost prev_rows = rows@;
            proof {
                js = js.push(joined@);
            }
            self.eval_results.append(&mut rows);
            proof {
                assert(runs@.take(k + 1).drop_last() =~= runs@.take(k as int));
                assert(runs@.take(k + 1).last() == runs@[k as int]);
                assert(js.drop_last() =~= prev_js);
                assert(js[runs@.take(k + 1).len() - 1] == joined@);
                assert(spec_all_rows(spec_func, stats, runs@.take(k + 1), js) =~= spec_all_rows(
                    spec_func,
                    stats,
                    runs@.take(k as int),
                    prev_js,
                ) + prev_rows);
                assert(self.eval_results@ =~= base + spec_all_rows(
                    spec_func,
                    stats,
                    runs@.take(k + 1),
                    js,
                ));
            }
        }
        proof {
            assert(runs@.take(nr as int) =~= runs@);
            assert(spec_runs_joined(spec_exit_targets(num_locals as int, exits@), runs@, js));
        }
        true
    }
}

/// Whether `js` aggregates, run by run, the dependency sets of `runs`
/// over the given target points.
pub open spec fn spec_runs_joined(
    targets: Seq<Target>,
    runs: Seq<EngineRun>,
    js: Seq<Seq<JoinedDeps>>,
) -> bool {
    &&& js.len() == runs.len()
    &&& forall|k: int|
        0 <= k < runs.len() ==> joined_ok(
            targets,
            (#[trigger] runs[k]).deps@.map_values(|d: Vec<Loc>| d@),
            js[k],
        )
}

/// The pointer statistics of a body as a value.
pub open spec fn spec_body_stats(input_ptrs: Seq<PtrInfo>, calls: Seq<CallInfo>) -> PtrStats {
    PtrStats {
        has_immut_ptr_in_call: exists|i: int|
            0 <= i < calls.len() && crate::body::spec_has_immut_arg(#[trigger] calls[i]),
        has_same_type_ptrs_in_call: exists|i: int|
            0 <= i < calls.len() && crate::body::spec_call_same_type(#[trigger] calls[i]),
        has_same_type_ptrs_in_input: crate::body::spec_any_same_type(
            crate::body::spec_mut_types(input_ptrs),
        ),
    }
}

/// The rows of a whole body: the concatenation of each invocation's rows,
/// in invocation order.
pub open spec fn spec_all_rows(
    func: FunctionRecord,
    stats: PtrStats,
    runs: Seq<EngineRun>,
    js: Seq<Seq<JoinedDeps>>,
) -> Seq<EvalResult>
    decreases runs.len(),
{
    if runs.len() == 0 {
        Seq::empty()
    } else {
        spec_all_rows(func, stats, runs.drop_last(), js.drop_last()) + spec_rows(
            func,
            stats,
            runs.last().mode,
            runs.last().direction,
            runs.last().duration_nanos,
            runs.last().reached_library,
            js[runs.len() - 1],
        )
    }
}


/// The row of one token-correlated measurement: the engine-reported
/// spans are mapped to the distinct overlapping tokens, those to the
/// distinct lines they touch, and the lines to the locality score
/// against all of the body's lines.
pub open spec fn spec_correlated_row(
    func: FunctionRecord,
    stats: PtrStats,
    mode: EvalMode,
    direction: Direction,
    duration_nanos: u64,
    reached_library: bool,
    local: usize,
    relevant_instructions: usize,
    relevant_tokens: usize,
    relevant_lines: usize,
    iqr: usize,
) -> EvalResult {
    EvalResult {
        num_relevant_tokens: relevant_tokens,
        num_relevant_lines: relevant_lines,
        line_iqr: iqr,
        ..spec_row(
            func,
            stats,
            mode,
            direction,
            duration_nanos,
            reached_library,
            local,
            relevant_instructions,
        )
    }
}

/// Builds one token-correlated row: the relevant tokens are those
/// overlapping the engine-reported spans, the relevant lines those the
/// relevant tokens touch, and the locality score compares them with all
/// of the body's lines.
pub fn correlated_row(
    func: &FunctionRecord,
    stats: PtrStats,
    mode: EvalMode,
    direction: Direction,
    duration_nanos: u64,
    reached_library: bool,
    local: usize,
    relevant_instructions: usize,
    text: &Vec<char>,
    tokens: &Tokens,
    engine_spans: &Vec<Span>,
    body_lines: &Vec<usize>,
) -> (r: EvalResult)
    requires
        tokens.wf(),
        text@.len() < usize::MAX,
        forall|i: int| 0 <= i < tokens.token_spans().len() ==> (#[trigger] tokens.token_spans()[i]).hi
            <= text@.len(),
    ensures
        exists|idxs: Seq<usize>, rlines: Seq<usize>|
            #![trigger batch_result_ok(tokens.token_spans(), engine_spans@, idxs), spec_line_iqr(rlines, body_lines@)]
            {
                &&& batch_result_ok(tokens.token_spans(), engine_spans@, idxs)
                &&& lines_result_ok(
                    text@,
                    idxs.map_values(|w: usize| tokens.token_spans()[w as int]),
                    rlines,
                )
                &&& r == spec_correlated_row(
                    *func,
                    stats,
                    mode,
                    direction,
                    duration_nanos,
                    reached_library,
                    local,
                    relevant_instructions,
                    idxs.len() as usize,
                    rlines.len() as usize,
                    spec_line_iqr(rlines, body_lines@) as usize,
                )
            },
{
    let idxs = tokens.query(engine_spans);
    let m = idxs.len();
    proof {
        tokens.lemma_token_spans_wf();
        assert forall|a: int|
            0 <= a < idxs@.len() implies (#[trigger] idxs@[a]) < tokens.token_spans().len() by {
            assert(idxs@.contains(idxs@[a]));
        }
    }
    let mut relevant_spans: Vec<Span> = Vec::new();
    for w in 0..m
        invariant
            tokens.wf(),
            m == idxs@.len(),
            forall|a: int|
                0 <= a < m ==> (#[trigger] idxs@[a]) < tokens.token_spans().len(),
            relevant_spans@ == idxs@.take(w as int).map_values(
                |x: usize| tokens.token_spans()[x as int],
            ),
    {
        relevant_spans.push(tokens.token_at(idxs[w]));
        proof {
            assert(relevant_spans@ =~= idxs@.take(w + 1).map_values(
                |x: usize| tokens.token_spans()[x as int],
            ));
        }
    }
    proof {
        assert(idxs@.take(m as int) =~= idxs@);
        tokens.lemma_token_spans_wf();
        assert forall|i: int|
            0 <= i < relevant_spans@.len() implies (#[trigger] relevant_spans@[i]).wf()
            && relevant_spans@[i].hi <= text@.len() by {
            assert(relevant_spans@[i] == tokens.token_spans()[idxs@[i] as int]);
            assert(tokens.token_spans()[idxs@[i] as int].wf());
            assert(tokens.token_spans()[idxs@[i] as int].hi <= text@.len());
        }
    }
    let rlines = collect_lines(text, &relevant_spans);
    let iqr = line_iqr(&rlines, body_lines);
    let base = mode_rows_single(
        func,
        stats,
        mode,
        direction,
        duration_nanos,
        reached_library,
        local,
        relevant_instructions,
    );
    let r = EvalResult {
        num_relevant_tokens: idxs.len(),
        num_relevant_lines: rlines.len(),
        line_iqr: iqr,
        ..base
    };
    proof {
        assert(batch_result_ok(tokens.token_spans(), engine_spans@, idxs@));
        assert(lines_result_ok(
            text@,
            idxs@.map_values(|x: usize| tokens.token_spans()[x as int]),
            rlines@,
        ));
        assert(r == spec_correlated_row(
            *func,
            stats,
            mode,
            direction,
            duration_nanos,
            reached_library,
            local,
            relevant_instructions,
            idxs@.len() as usize,
            rlines@.len() as usize,
            spec_line_iqr(rlines@, body_lines@) as usize,
        ));
    }
    r
}

/// Builds the row of one entity under one configuration, without token
/// correlation.
fn mode_rows_single(
    func: &FunctionRecord,
    stats: PtrStats,
    mode: EvalMode,
    direction: Direction,
    duration_nanos: u64,
    reached_library: bool,
    local: usize,
    relevant_instructions: usize,
) -> (r: EvalResult)
    ensures
        r == spec_row(
            *func,
            stats,
            mode,
            direction,
            duration_nanos,
            reached_library,
            local,
            relevant_instructions,
        ),
{
    EvalResult {
        mutability_mode: mode.mutability_mode,
        context_mode: mode.context_mode,
        pointer_mode: mode.pointer_mode,
        direction,
        sliced_local: local,
        function_range: func.range.clone(),
        function_path: func.path.clone(),
        num_instructions: func.num_instructions,
        num_tokens: func.num_tokens,
        num_lines: func.num_lines,
        num_relevant_instructions: relevant_instructions,
        num_relevant_tokens: 0,
        num_relevant_lines: 0,
        line_iqr: 0,
        duration_nanos,
        has_immut_ptr_in_call: stats.has_immut_ptr_in_call,
        has_same_type_ptrs_in_call: stats.has_same_type_ptrs_in_call,
        has_same_type_ptrs_in_input: stats.has_same_type_ptrs_in_input,
        reached_library,
    }
}

proof fn lemma_concat_to_set(a: Seq<EvalResult>, b: Seq<EvalResult>)
    ensures
        (a + b).to_set() == a.to_set().union(b.to_set()),
{
    assert forall|row: EvalResult| #[trigger] (a + b).to_set().contains(row) implies a.to_set().union(
        b.to_set(),
    ).contains(row) by {
        let i = choose|i: int| 0 <= i < (a + b).len() && (a + b)[i] == row;
        if i < a.len() {
            assert(a[i] == row);
        } else {
            assert(b[i - a.len()] == row);
        }
    }
    assert forall|row: EvalResult|
        a.to_set().union(b.to_set()).contains(row) implies #[trigger] (a + b).to_set().contains(
        row,
    ) by {
        if a.to_set().contains(row) {
            let i = choose|i: int| 0 <= i < a.len() && a[i] == row;
            assert((a + b)[i] == row);
        } else {
            let i = choose|i: int| 0 <= i < b.len() && b[i] == row;
            assert((a + b)[a.len() + i] == row);
        }
    }
    assert((a + b).to_set() =~= a.to_set().union(b.to_set()));
}

proof fn lemma_row_set_subset(
    func: FunctionRecord,
    stats: PtrStats,
    mode: EvalMode,
    direction: Direction,
    duration_nanos: u64,
    reached_library: bool,
    targets: Seq<Target>,
    depss: Seq<Seq<Loc>>,
    j1: Seq<JoinedDeps>,
    j2: Seq<JoinedDeps>,
)
    requires
        joined_ok(targets, depss, j1),
        joined_ok(targets, depss, j2),
    ensures
        forall|row: EvalResult|
            #[trigger] spec_rows(func, stats, mode, direction, duration_nanos, reached_library, j1).to_set().contains(
                row,
            ) ==> spec_rows(func, stats, mode, direction, duration_nanos, reached_library, j2).to_set().contains(
                row,
            ),
{
    let rows1 = spec_rows(func, stats, mode, direction, duration_nanos, reached_library, j1);
    let rows2 = spec_rows(func, stats, mode, direction, duration_nanos, reached_library, j2);
    assert forall|row: EvalResult| #[trigger] rows1.to_set().contains(row) implies rows2.to_set().contains(
        row,
    ) by {
        let a = choose|a: int| 0 <= a < rows1.len() && rows1[a] == row;
        let l = j1[a].local;
        assert(local_among(targets, l));
        let x = choose|x: int| 0 <= x < targets.len() && (#[trigger] targets[x]).local == l;
        assert(crate::aggregate::has_entry(j2, targets[x].local));
        let b = choose|b: int| 0 <= b < j2.len() && (#[trigger] j2[b]).local == l;
        assert forall|loc: Loc| #[trigger] j1[a].deps@.contains(loc) <==> j2[b].deps@.contains(
            loc,
        ) by {
            assert(j1[a].deps@.contains(loc) <==> spec_joined_contains(targets, depss, l, loc));
            assert(j2[b].deps@.contains(loc) <==> spec_joined_contains(targets, depss, l, loc));
        }
        assert(j1[a].deps@.to_set() =~= j2[b].deps@.to_set());
        j1[a].deps@.unique_seq_to_set();
        j2[b].deps@.unique_seq_to_set();
        assert(j1[a].deps@.len() == j2[b].deps@.len());
        assert(rows2[b] == row);
        assert(rows2.contains(row));
    }
}

/// Determinism of aggregation: for the exit-local policy the unioned
/// relevance sets are pinned per entity, so any two aggregations of the
/// same engine outcomes yield the same set of output rows.
pub proof fn lemma_rows_deterministic(
    func: FunctionRecord,
    stats: PtrStats,
    targets: Seq<Target>,
    runs: Seq<EngineRun>,
    js1: Seq<Seq<JoinedDeps>>,
    js2: Seq<Seq<JoinedDeps>>,
)
    requires
        spec_runs_joined(targets, runs, js1),
        spec_runs_joined(targets, runs, js2),
    ensures
        spec_all_rows(func, stats, runs, js1).to_set() == spec_all_rows(
            func,
            stats,
            runs,
            js2,
        ).to_set(),
    decreases runs.len(),
{
    if runs.len() == 0 {
        assert(spec_all_rows(func, stats, runs, js1).to_set() =~= spec_all_rows(
            func,
            stats,
            runs,
            js2,
        ).to_set());
    } else {
        let k = runs.len() - 1;
        assert(spec_runs_joined(targets, runs.drop_last(), js1.drop_last())) by {
            assert(forall|w: int|
                0 <= w < runs.drop_last().len() ==> #[trigger] runs.drop_last()[w] == runs[w]
                    && js1.drop_last()[w] == js1[w]);
        }
        assert(spec_runs_joined(targets, runs.drop_last(), js2.drop_last())) by {
            assert(forall|w: int|
                0 <= w < runs.drop_last().len() ==> #[trigger] runs.drop_last()[w] == runs[w]
                    && js2.drop_last()[w] == js2[w]);
        }
        lemma_rows_deterministic(func, stats, targets, runs.drop_last(), js1.drop_last(), js2.drop_last());
        let mode = runs.last().mode;
        let dir = runs.last().direction;
        let dur = runs.last().duration_nanos;
        let reach = runs.last().reached_library;
        let depss = runs[k].deps@.map_values(|d: Vec<Loc>| d@);
        lemma_row_set_subset(func, stats, mode, dir, dur, reach, targets, depss, js1[k], js2[k]);
        lemma_row_set_subset(func, stats, mode, dir, dur, reach, targets, depss, js2[k], js1[k]);
        assert(spec_rows(func, stats, mode, dir, dur, reach, js1[k]).to_set() =~= spec_rows(
            func,
            stats,
            mode,
            dir,
            dur,
            reach,
            js2[k],
        ).to_set());
        lemma_concat_to_set(
            spec_all_rows(func, stats, runs.drop_last(), js1.drop_last()),
            spec_rows(func, stats, mode, dir, dur, reach, js1[k]),
        );
        lemma_concat_to_set(
            spec_all_rows(func, stats, runs.drop_last(), js2.drop_last()),
            spec_rows(func, stats, mode, dir, dur, reach, js2[k]),
        );
    }
}

proof fn lemma_all_rows_has_run_row(
    func: FunctionRecord,
    stats: PtrStats,
    runs: Seq<EngineRun>,
    js: Seq<Seq<JoinedDeps>>,
    k: int,
    row: EvalResult,
)
    requires
        js.len() == runs.len(),
        0 <= k < runs.len(),
        spec_rows(
            func,
            stats,
            runs[k].mode,
            runs[k].direction,
            runs[k].duration_nanos,
            runs[k].reached_library,
            js[k],
        ).contains(row),
    ensures
        spec_all_rows(func, stats, runs, js).contains(row),
    decreases runs.len(),
{
    let prefix = spec_all_rows(func, stats, runs.drop_last(), js.drop_last());
    let last_rows = spec_rows(
        func,
        stats,
        runs.last().mode,
        runs.last().direction,
        runs.last().duration_nanos,
        runs.last().reached_library,
        js[runs.len() - 1],
    );
    if k == runs.len() - 1 {
        let i = choose|i: int| 0 <= i < last_rows.len() && last_rows[i] == row;
        assert(spec_all_rows(func, stats, runs, js)[prefix.len() + i] == row);
    } else {
        assert(runs.drop_last()[k] == runs[k] && js.drop_last()[k] == js[k]);
        lemma_all_rows_has_run_row(func, stats, runs.drop_last(), js.drop_last(), k, row);
        let i = choose|i: int| 0 <= i < prefix.len() && prefix[i] == row;
        assert(spec_all_rows(func, stats, runs, js)[i] == row);
    }
}

/// Baseline guarantee: when the default configuration is among the
/// evaluated runs, every measured entity has at least one row under the
/// default configuration, so a downstream baseline lookup per
/// (function, entity) group never fails.
pub proof fn lemma_baseline_present(
    func: FunctionRecord,
    stats: PtrStats,
    targets: Seq<Target>,
    runs: Seq<EngineRun>,
    js: Seq<Seq<JoinedDeps>>,
    l: usize,
    k0: int,
)
    requires
        spec_runs_joined(targets, runs, js),
        0 <= k0 < runs.len(),
        runs[k0].mode == spec_default_mode(),
        local_among(targets, l),
    ensures
        exists|row: EvalResult|
            #[trigger] spec_all_rows(func, stats, runs, js).contains(row) && row.sliced_local == l
                && row.mutability_mode == spec_default_mode().mutability_mode && row.context_mode
                == spec_default_mode().context_mode && row.pointer_mode
                == spec_default_mode().pointer_mode && row.function_path == func.path,
{
    let x = choose|x: int| 0 <= x < targets.len() && (#[trigger] targets[x]).local == l;
    let depss = runs[k0].deps@.map_values(|d: Vec<Loc>| d@);
    assert(joined_ok(targets, depss, js[k0]));
    assert(crate::aggregate::has_entry(js[k0], targets[x].local));
    let b = choose|b: int| 0 <= b < js[k0].len() && (#[trigger] js[k0][b]).local == l;
    let rows_k0 = spec_rows(
        func,
        stats,
        runs[k0].mode,
        runs[k0].direction,
        runs[k0].duration_nanos,
        runs[k0].reached_library,
        js[k0],
    );
    let row = rows_k0[b];
    assert(rows_k0.contains(row));
    lemma_all_rows_has_run_row(func, stats, runs, js, k0, row);
    assert(spec_all_rows(func, stats, runs, js).contains(row) && row.sliced_local == l
        && row.mutability_mode == spec_default_mode().mutability_mode && row.context_mode
        == spec_default_mode().context_mode && row.pointer_mode
        == spec_default_mode().pointer_mode && row.function_path == func.path);
}

} // verus!
