use flow_eval::aggregate::join_deps;
use flow_eval::body::{
    body_ptr_stats, count_bodies, enumerate_bodies, CallInfo, ItemInfo, Loc, PtrInfo, Restriction,
};
use flow_eval::config::{all_modes, cartesian_product, default_mode, direction_axis, Direction};
use flow_eval::lex::tokenize;
use flow_eval::lines::{collect_lines, line_iqr, line_of};
use flow_eval::corpus::{baseline_index, min_relevant_index};
use flow_eval::runner::{correlated_row, EngineRun, EvalCrateVisitor, FunctionRecord};
use flow_eval::span::{overlaps, Range, Span};
use flow_eval::targets::{exit_local_targets, write_site_targets, Target, WriteSite};
use flow_eval::text::chars_of;
use flow_eval::study::allocator::Allocator;
use flow_eval::tokens::{index_snippet, TokenTree, Tokens};

fn s(st: &str) -> String {
    st.to_string()
}

fn sp(lo: usize, hi: usize) -> Span {
    Span::new(lo, hi)
}

fn loc(block: usize, index: usize) -> Loc {
    Loc { block, index }
}

#[test]
fn matrix_is_complete() {
    let modes = all_modes();
    assert_eq!(modes.len(), 8);
    for i in 0..modes.len() {
        for j in 0..modes.len() {
            if i != j {
                assert_ne!(modes[i], modes[j]);
            }
        }
    }
    assert!(modes.contains(&default_mode()));
    assert_eq!(direction_axis().len(), 3);
}

#[test]
fn matrix_product_counts() {
    let a: Vec<u64> = vec![1, 2];
    let b: Vec<u64> = vec![10, 20, 30];
    let c: Vec<u64> = vec![100, 200];
    let prod = cartesian_product(&a, &b, &c);
    assert_eq!(prod.len(), 12);
    assert_eq!(prod[0], (1, 10, 100));
    assert_eq!(prod[(1 * 3 + 2) * 2 + 1], (2, 30, 200));
}

#[test]
fn enumeration_numbers_eligible_bodies() {
    let items = vec![
        ItemInfo {
            path: s("a::f"),
            span: sp(0, 10),
            is_fn_like: true,
            from_expansion: false,
            has_source: true,
        },
        ItemInfo {
            path: s("a::generated"),
            span: sp(10, 20),
            is_fn_like: true,
            from_expansion: true,
            has_source: true,
        },
        ItemInfo {
            path: s("a::T"),
            span: sp(20, 30),
            is_fn_like: false,
            from_expansion: false,
            has_source: true,
        },
        ItemInfo {
            path: s("a::g"),
            span: sp(30, 40),
            is_fn_like: true,
            from_expansion: false,
            has_source: true,
        },
    ];
    let bodies = enumerate_bodies(&items);
    assert_eq!(bodies.len(), 2);
    assert_eq!(bodies[0].ordinal, 1);
    assert_eq!(bodies[0].path, s("a::f"));
    assert_eq!(bodies[1].ordinal, 2);
    assert_eq!(bodies[1].path, s("a::g"));
    assert_eq!(count_bodies(&items), 2);
}

#[test]
fn restriction_selects() {
    assert!(Restriction::All.selected(3, &s("x")));
    assert!(Restriction::Ordinal(3).selected(3, &s("x")));
    assert!(!Restriction::Ordinal(2).selected(3, &s("x")));
    assert!(Restriction::Named(s("x")).selected(9, &s("x")));
    assert!(!Restriction::Named(s("y")).selected(9, &s("x")));
}

#[test]
fn token_index_overlap_exact_and_disjoint() {
    let spans = vec![sp(0, 2), sp(2, 5), sp(7, 9)];
    let tokens = Tokens::build(&spans, 0);
    assert_eq!(tokens.total_tokens(), 3);
    // a query equal to one token's span returns at least that token
    assert_eq!(tokens.overlapping(&sp(2, 5)), vec![1]);
    // a query disjoint from every token returns nothing
    assert_eq!(tokens.overlapping(&sp(5, 7)), Vec::<usize>::new());
    // a batch query deduplicates by token index
    assert_eq!(tokens.query(&vec![sp(1, 3), sp(2, 8)]), vec![0, 1, 2]);
}

#[test]
fn token_index_shifts_by_base() {
    let spans = vec![sp(0, 2), sp(3, 4)];
    let tokens = Tokens::build(&spans, 100);
    assert_eq!(tokens.overlapping(&sp(100, 101)), vec![0]);
    assert_eq!(tokens.overlapping(&sp(0, 50)), Vec::<usize>::new());
}

#[test]
fn token_stream_flattens_in_order() {
    let trees = vec![
        TokenTree::Leaf(sp(0, 1)),
        TokenTree::Group(vec![
            TokenTree::Leaf(sp(2, 3)),
            TokenTree::Group(vec![TokenTree::Leaf(sp(4, 5))]),
        ]),
        TokenTree::Leaf(sp(6, 7)),
    ];
    let flat = Tokens::flatten_stream(&trees);
    assert_eq!(flat, vec![sp(0, 1), sp(2, 3), sp(4, 5), sp(6, 7)]);
}

#[test]
fn lexer_finds_tokens_and_skips_comments() {
    let text = chars_of("let x = 1; // note\n/* skip */ y\n\"a\\\"b\" z");
    let toks = tokenize(&text).unwrap();
    // let, x, =, 1, ;, y, "a\"b", z
    assert_eq!(toks.len(), 8);
    assert_eq!(toks[0], sp(0, 3));
    assert_eq!(toks[4], sp(9, 10));
    let unterminated = chars_of("a \"oops");
    assert!(tokenize(&unterminated).is_none());
}

#[test]
fn line_lookup_counts_newlines() {
    let text = chars_of("ab\ncd\nef");
    assert_eq!(line_of(&text, 0), 0);
    assert_eq!(line_of(&text, 3), 1);
    assert_eq!(line_of(&text, 7), 2);
}

#[test]
fn iqr_boundaries() {
    // an empty relevant-line set scores 0
    assert_eq!(line_iqr(&vec![], &vec![0, 1, 2, 3, 4]), 0);
    // a relevant set equal to the full set of (at most three) body lines
    // scores the total body line count
    assert_eq!(line_iqr(&vec![4, 7, 9], &vec![4, 7, 9]), 3);
    assert_eq!(line_iqr(&vec![5], &vec![5]), 1);
}

#[test]
fn union_of_exit_deps_per_local() {
    let exits = vec![loc(3, 0), loc(5, 1)];
    let targets = exit_local_targets(2, &exits);
    assert_eq!(targets.len(), 4);
    assert_eq!(targets[0], Target { local: 0, loc: loc(3, 0) });
    let deps = vec![
        vec![loc(0, 1), loc(0, 2)],
        vec![loc(0, 2), loc(0, 3)],
        vec![loc(1, 5)],
        vec![],
    ];
    let joined = join_deps(&targets, &deps);
    assert_eq!(joined.len(), 2);
    assert_eq!(joined[0].local, 0);
    // the union of the two exits' sets, deduplicated
    assert_eq!(joined[0].deps.len(), 3);
    assert!(joined[0].deps.len() >= deps[0].len());
    assert!(joined[0].deps.len() >= deps[1].len());
    assert_eq!(joined[1].local, 1);
    assert_eq!(joined[1].deps.len(), 1);
}

#[test]
fn write_site_policy_emits_one_target_per_lhs() {
    let sites = vec![
        WriteSite { loc: loc(0, 0), lhs_locals: vec![1] },
        WriteSite { loc: loc(0, 2), lhs_locals: vec![2, 3] },
    ];
    let targets = write_site_targets(&sites);
    assert_eq!(targets.len(), 3);
    assert_eq!(targets[1], Target { local: 2, loc: loc(0, 2) });
}

#[test]
fn two_locals_three_directions_make_six_rows() {
    // a body with 2 locals and 2 exits, evaluated once per query direction
    let exits = vec![loc(3, 0), loc(5, 1)];
    let fwd = vec![vec![loc(0, 1)], vec![loc(0, 2)], vec![loc(1, 5)], vec![]];
    let bwd = vec![vec![loc(0, 2)], vec![loc(0, 3)], vec![], vec![loc(1, 6)]];
    // the "both" direction reports, per target, the union of the two
    let both = vec![
        vec![loc(0, 1), loc(0, 2)],
        vec![loc(0, 2), loc(0, 3)],
        vec![loc(1, 5)],
        vec![loc(1, 6)],
    ];
    let mk = |direction, deps| EngineRun {
        mode: default_mode(),
        direction,
        deps,
        duration_nanos: 10,
        reached_library: false,
    };
    let runs = vec![
        mk(Direction::Forward, fwd),
        mk(Direction::Backward, bwd),
        mk(Direction::Both, both),
    ];
    let mut visitor = EvalCrateVisitor::new(1);
    let analyzed = visitor.analyze_body(
        &s("demo::body"),
        &sp(0, 40),
        &s("demo.rs"),
        100,
        7,
        10,
        5,
        2,
        &exits,
        &vec![],
        &vec![],
        &runs,
    );
    assert!(analyzed);
    let rows = &visitor.eval_results;
    assert_eq!(rows.len(), 6);
    // per direction: one row per entity
    for (k, dir) in [Direction::Forward, Direction::Backward, Direction::Both]
        .into_iter()
        .enumerate()
    {
        assert_eq!(rows[2 * k].direction, dir);
        assert_eq!(rows[2 * k].sliced_local, 0);
        assert_eq!(rows[2 * k + 1].direction, dir);
        assert_eq!(rows[2 * k + 1].sliced_local, 1);
    }
    // for the combined direction, the relevance count is the union size,
    // never less than either single direction's count
    assert_eq!(rows[4].num_relevant_instructions, 3);
    assert!(rows[4].num_relevant_instructions >= rows[0].num_relevant_instructions);
    assert!(rows[4].num_relevant_instructions >= rows[2].num_relevant_instructions);
    assert_eq!(rows[5].num_relevant_instructions, 2);
}

#[test]
fn skipped_body_keeps_ordinal_and_appends_nothing() {
    let mut visitor = EvalCrateVisitor::new(2);
    visitor.set_restriction(Restriction::Ordinal(2));
    let analyzed = visitor.analyze_body(
        &s("demo::first"),
        &sp(0, 10),
        &s("demo.rs"),
        100,
        1,
        1,
        1,
        1,
        &vec![loc(0, 0)],
        &vec![],
        &vec![],
        &vec![],
    );
    assert!(!analyzed);
    assert_eq!(visitor.count, 1);
    assert!(visitor.eval_results.is_empty());
}

#[test]
fn unconvertible_span_abandons_the_body() {
    let mut visitor = EvalCrateVisitor::new(1);
    let analyzed = visitor.analyze_body(
        &s("demo::broken"),
        &sp(0, 200),
        &s("demo.rs"),
        100,
        1,
        1,
        1,
        1,
        &vec![loc(0, 0)],
        &vec![],
        &vec![],
        &vec![],
    );
    assert!(!analyzed);
    assert!(visitor.eval_results.is_empty());
}

#[test]
fn range_conversion_checks_bounds() {
    assert_eq!(
        Range::from_span(&sp(2, 6), &s("demo.rs"), 10),
        Some(Range { start: 2, end: 6, filename: s("demo.rs") })
    );
    assert_eq!(Range::from_span(&sp(2, 6), &s("demo.rs"), 5), None);
}

#[test]
fn pointer_stats_detect_shared_types() {
    let input_ptrs = vec![
        PtrInfo { type_id: 7, mutable: true },
        PtrInfo { type_id: 7, mutable: true },
    ];
    let calls = vec![CallInfo {
        arg_ptrs: vec![
            PtrInfo { type_id: 1, mutable: false },
            PtrInfo { type_id: 2, mutable: true },
        ],
        dest_ptrs: vec![PtrInfo { type_id: 2, mutable: true }],
    }];
    let stats = body_ptr_stats(&input_ptrs, &calls);
    assert!(stats.has_immut_ptr_in_call);
    assert!(stats.has_same_type_ptrs_in_call);
    assert!(stats.has_same_type_ptrs_in_input);
}

#[test]
fn five_line_snippet_locality() {
    // a 5-line snippet with 10 tokens, where the tokens on the middle
    // three lines are flagged relevant
    let text = chars_of("ab cd\nef gh\nij kl\nmn op\nqr st");
    let token_spans = tokenize(&text).unwrap();
    assert_eq!(token_spans.len(), 10);
    let tokens = Tokens::build(&token_spans, 0);
    assert_eq!(tokens.total_tokens(), 10);

    let body_lines = collect_lines(&text, &token_spans);
    assert_eq!(body_lines, vec![0, 1, 2, 3, 4]);

    let relevant_idx = tokens.query(&vec![sp(6, 23)]);
    assert_eq!(relevant_idx.len(), 6);
    let relevant_spans = relevant_idx
        .iter()
        .map(|&i| tokens.token_at(i))
        .collect::<Vec<_>>();
    let relevant_lines = collect_lines(&text, &relevant_spans);
    assert_eq!(relevant_lines, vec![1, 2, 3]);
    assert_eq!(line_iqr(&relevant_lines, &body_lines), 3);

    let func = FunctionRecord {
        path: s("demo::snippet"),
        range: Range { start: 0, end: 29, filename: s("demo.rs") },
        num_instructions: 12,
        num_tokens: 10,
        num_lines: 5,
    };
    let stats = body_ptr_stats(&vec![], &vec![]);
    let row = correlated_row(
        &func,
        stats,
        default_mode(),
        Direction::Both,
        42,
        false,
        0,
        9,
        &text,
        &tokens,
        &vec![sp(6, 23)],
        &body_lines,
    );
    assert_eq!(row.num_relevant_tokens, 6);
    assert_eq!(row.num_relevant_lines, 3);
    assert_eq!(row.line_iqr, 3);
    assert_eq!(row.num_tokens, 10);
    assert_eq!(row.num_lines, 5);
}

#[test]
fn group_lookups_find_min_and_baseline() {
    let exits = vec![loc(0, 0)];
    let deps = vec![vec![loc(0, 1)], vec![loc(0, 2)]];
    let mut visitor = EvalCrateVisitor::new(1);
    let modes = all_modes();
    let runs: Vec<EngineRun> = modes
        .iter()
        .map(|mode| EngineRun {
            mode: *mode,
            direction: Direction::Backward,
            deps: deps.clone(),
            duration_nanos: 5,
            reached_library: false,
        })
        .collect();
    visitor.analyze_body(
        &s("demo::body"),
        &sp(0, 10),
        &s("demo.rs"),
        20,
        4,
        6,
        2,
        2,
        &exits,
        &vec![],
        &vec![],
        &runs,
    );
    // every evaluated matrix carries a row of the default configuration
    assert!(baseline_index(&visitor.eval_results).is_some());
    assert_eq!(min_relevant_index(&visitor.eval_results), Some(0));
    assert_eq!(min_relevant_index(&Vec::new()), None);
}

#[test]
fn allocator_unaligned_packs_tightly() {
    let mut alloc = Allocator::new(12);
    assert_eq!(alloc.allocate(false, 3, 4), Some(0));
    assert_eq!(alloc.allocate(false, 3, 4), Some(3));
    assert_eq!(alloc.allocate(true, 3, 4), Some(8));
    assert_eq!(alloc.allocate(false, 3, 4), None);
}

#[test]
fn snippet_index_shifts_to_buffer_coordinates() {
    let snippet = chars_of("ab cd");
    let tokens = index_snippet(&snippet, 10).unwrap();
    assert_eq!(tokens.total_tokens(), 2);
    assert_eq!(tokens.overlapping(&sp(13, 14)), vec![1]);
    assert!(index_snippet(&chars_of("\"open"), 0).is_none());
}

#[test]
fn span_overlap_is_strict_intersection() {
    assert!(overlaps(&sp(0, 2), &sp(1, 3)));
    assert!(!overlaps(&sp(0, 2), &sp(2, 3)));
    assert!(!overlaps(&sp(4, 4), &sp(3, 6)));
}

#[test]
fn repeated_analysis_yields_identical_rows() {
    let exits = vec![loc(0, 0), loc(1, 0)];
    let deps = vec![vec![loc(0, 1)], vec![loc(0, 2)], vec![loc(1, 1)], vec![loc(1, 1)]];
    let runs = vec![EngineRun {
        mode: default_mode(),
        direction: Direction::Backward,
        deps,
        duration_nanos: 0,
        reached_library: false,
    }];
    let mut first = EvalCrateVisitor::new(1);
    let mut second = EvalCrateVisitor::new(1);
    for v in [&mut first, &mut second] {
        v.analyze_body(
            &s("demo::same"),
            &sp(0, 9),
            &s("demo.rs"),
            30,
            5,
            8,
            2,
            2,
            &exits,
            &vec![],
            &vec![],
            &runs,
        );
    }
    assert_eq!(first.eval_results, second.eval_results);
    assert_eq!(first.count, second.count);
}
