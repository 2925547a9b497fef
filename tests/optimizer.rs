use lazyplan::arena::{Arena, Node};
use lazyplan::dtype::{DataType, Field};
use lazyplan::error::PlanError;
use lazyplan::expr::{AExpr, BooleanFunction, FunctionExpr, LiteralValue, Operator};
use lazyplan::optimizer::{optimize, same_fields, OptState, Optimize};
use lazyplan::plan::{output_schema, FunctionNode, JoinType, LogicalPlan, SortArguments};
use lazyplan::slice_pushdown::{can_pushdown_slice_past_projections, SlicePushDown};
use lazyplan::stack_opt::{OptimizationRule, StackOptimizer};

fn field(name: &str) -> Field {
    Field { name: name.to_string(), dtype: DataType::Int64 }
}

fn scan(names: &[&str]) -> LogicalPlan {
    LogicalPlan::Scan {
        path: "data.csv".to_string(),
        schema: names.iter().map(|n| field(n)).collect(),
        n_rows: None,
        skip_rows: 0,
        predicate: None,
    }
}

fn flags(slice_pushdown: bool, streaming: bool) -> OptState {
    OptState {
        predicate_pushdown: true,
        projection_pushdown: true,
        type_coercion: true,
        simplify_expr: true,
        slice_pushdown,
        streaming,
        fast_projection: true,
        eager: false,
        comm_subplan_elim: false,
        comm_subexpr_elim: false,
        file_caching: false,
    }
}

#[test]
fn arena_take_and_replace_keep_ids() {
    let mut arena: Arena<i64> = Arena::new();
    assert!(arena.is_empty());
    let a = arena.add(10);
    let b = arena.add(20);
    assert_eq!(a, Node(0));
    assert_eq!(b, Node(1));
    let v = arena.take(a);
    assert_eq!(v, 10);
    assert!(!arena.contains(a));
    assert_eq!(arena.try_get(a), None);
    arena.replace(a, 11);
    assert_eq!(*arena.get(a), 11);
    assert_eq!(*arena.get(b), 20);
    assert_eq!(arena.len(), 2);
}

#[test]
fn elementwise_projection_pushes_slice_into_scan() {
    let mut ea: Arena<AExpr> = Arena::new();
    let a0 = ea.add(AExpr::Column("a".to_string()));
    let a1 = ea.add(AExpr::Column("a".to_string()));
    let one = ea.add(AExpr::Literal(LiteralValue::Int64(1)));
    let plus = ea.add(AExpr::BinaryExpr { left: a1, op: Operator::Plus, right: one });
    let mut lp: Arena<LogicalPlan> = Arena::new();
    let s = lp.add(scan(&["a", "b"]));
    let p = lp.add(LogicalPlan::Projection {
        input: s,
        expr: vec![a0, plus],
        schema: vec![field("a"), field("a_plus")],
    });
    let top = lp.add(LogicalPlan::Slice { input: p, offset: 0, len: 5 });
    let r = optimize(top, flags(true, false), &mut lp, &mut ea);
    assert_eq!(r, Ok(top));
    match lp.get(top) {
        LogicalPlan::Projection { input, .. } => assert_eq!(*input, s),
        other => panic!("unexpected root {:?}", other),
    }
    match lp.get(s) {
        LogicalPlan::Scan { n_rows, .. } => assert_eq!(*n_rows, Some(5)),
        other => panic!("unexpected input {:?}", other),
    }
    assert_eq!(can_pushdown_slice_past_projections(&vec![a0, plus], &ea), (true, true));
}

#[test]
fn non_scalar_literal_blocks_slice() {
    let mut ea: Arena<AExpr> = Arena::new();
    let lit = ea.add(AExpr::Literal(LiteralValue::Series(vec![1, 2, 3])));
    let c = ea.add(AExpr::Alias(lit, "c".to_string()));
    assert_eq!(can_pushdown_slice_past_projections(&vec![c], &ea), (false, false));
    let mut lp: Arena<LogicalPlan> = Arena::new();
    let s = lp.add(scan(&["a"]));
    let p = lp.add(LogicalPlan::Projection { input: s, expr: vec![c], schema: vec![field("c")] });
    let top = lp.add(LogicalPlan::Slice { input: p, offset: 0, len: 0 });
    let opt = SlicePushDown::new(false);
    let root = lp.take(top);
    let out = opt.optimize(root, &mut lp, &ea).unwrap();
    match out {
        LogicalPlan::Slice { input, offset, len } => {
            assert_eq!((offset, len), (0, 0));
            assert!(matches!(lp.get(input), LogicalPlan::Projection { .. }));
        },
        other => panic!("slice was moved: {:?}", other),
    }
    match lp.get(s) {
        LogicalPlan::Scan { n_rows, .. } => assert_eq!(*n_rows, None),
        other => panic!("unexpected input {:?}", other),
    }
}

#[test]
fn scalar_literal_without_column_passes_only_first_test() {
    let mut ea: Arena<AExpr> = Arena::new();
    let lit = ea.add(AExpr::Literal(LiteralValue::Int64(7)));
    assert_eq!(can_pushdown_slice_past_projections(&vec![lit], &ea), (true, false));
    let single = ea.add(AExpr::Literal(LiteralValue::Series(vec![4])));
    let col = ea.add(AExpr::Column("x".to_string()));
    assert_eq!(can_pushdown_slice_past_projections(&vec![single, col], &ea), (true, true));
    let exploded = ea.add(AExpr::Explode(col));
    assert_eq!(can_pushdown_slice_past_projections(&vec![exploded], &ea), (false, false));
}

#[test]
fn aggregate_anchors_the_slice() {
    let mut ea: Arena<AExpr> = Arena::new();
    let k = ea.add(AExpr::Column("k".to_string()));
    let v = ea.add(AExpr::Column("v".to_string()));
    let agg = ea.add(AExpr::Agg(v));
    let mut lp: Arena<LogicalPlan> = Arena::new();
    let s = lp.add(scan(&["k", "v"]));
    let inner = lp.add(LogicalPlan::Slice { input: s, offset: 0, len: 100 });
    let a = lp.add(LogicalPlan::Aggregate {
        input: inner,
        keys: vec![k],
        aggs: vec![agg],
        schema: vec![field("k"), field("v")],
        maintain_order: false,
        slice: None,
    });
    let top = lp.add(LogicalPlan::Slice { input: a, offset: 0, len: 10 });
    let opt = SlicePushDown::new(false);
    let root = lp.take(top);
    let out = opt.optimize(root, &mut lp, &ea).unwrap();
    match out {
        LogicalPlan::Aggregate { input, slice, .. } => {
            assert_eq!(slice, Some((0, 10)));
            assert_eq!(input, inner);
        },
        other => panic!("unexpected root {:?}", other),
    }
    // The input was optimized on its own: its slice went into the scan.
    match lp.get(inner) {
        LogicalPlan::Scan { n_rows, .. } => assert_eq!(*n_rows, Some(100)),
        other => panic!("unexpected input {:?}", other),
    }
}

#[test]
fn equal_offsets_merge_into_shorter_slice() {
    let ea: Arena<AExpr> = Arena::new();
    let mut lp: Arena<LogicalPlan> = Arena::new();
    let d = lp.add(LogicalPlan::DataFrameScan { schema: vec![field("a")] });
    let f = lp.add(LogicalPlan::Cache { input: d, id: 1 });
    let inner = lp.add(LogicalPlan::Slice { input: f, offset: 2, len: 7 });
    let outer = LogicalPlan::Slice { input: inner, offset: 2, len: 4 };
    let opt = SlicePushDown::new(false);
    let out = opt.optimize(outer, &mut lp, &ea).unwrap();
    match out {
        LogicalPlan::Slice { input, offset, len } => {
            assert_eq!((offset, len), (2, 4));
            assert!(matches!(lp.get(input), LogicalPlan::Cache { .. }));
        },
        other => panic!("unexpected root {:?}", other),
    }
}

#[test]
fn unequal_offsets_keep_outer_slice() {
    let ea: Arena<AExpr> = Arena::new();
    let mut lp: Arena<LogicalPlan> = Arena::new();
    let s = lp.add(scan(&["a"]));
    let inner = lp.add(LogicalPlan::Slice { input: s, offset: 0, len: 8 });
    let outer = LogicalPlan::Slice { input: inner, offset: 3, len: 2 };
    let opt = SlicePushDown::new(false);
    let out = opt.optimize(outer, &mut lp, &ea).unwrap();
    // The outer slice stays above; the inner one went into the scan.
    assert_eq!(out, LogicalPlan::Slice { input: s, offset: 3, len: 2 });
    match lp.get(s) {
        LogicalPlan::Scan { n_rows, .. } => assert_eq!(*n_rows, Some(8)),
        other => panic!("unexpected input {:?}", other),
    }
}

#[test]
fn union_takes_slice_and_pushes_at_offset_zero() {
    let ea: Arena<AExpr> = Arena::new();
    let mut lp: Arena<LogicalPlan> = Arena::new();
    let s1 = lp.add(scan(&["a"]));
    let s2 = lp.add(scan(&["a"]));
    let u = lp.add(LogicalPlan::Union { inputs: vec![s1, s2], slice: None });
    let top = LogicalPlan::Slice { input: u, offset: 0, len: 3 };
    let out = SlicePushDown::new(false).optimize(top, &mut lp, &ea).unwrap();
    assert_eq!(out, LogicalPlan::Union { inputs: vec![s1, s2], slice: Some((0, 3)) });
    for id in [s1, s2] {
        match lp.get(id) {
            LogicalPlan::Scan { n_rows, .. } => assert_eq!(*n_rows, Some(3)),
            other => panic!("unexpected input {:?}", other),
        }
    }
    let mut lp2: Arena<LogicalPlan> = Arena::new();
    let t1 = lp2.add(scan(&["a"]));
    let u2 = lp2.add(LogicalPlan::Union { inputs: vec![t1], slice: None });
    let top2 = LogicalPlan::Slice { input: u2, offset: 1, len: 3 };
    let out2 = SlicePushDown::new(false).optimize(top2, &mut lp2, &ea).unwrap();
    assert_eq!(out2, LogicalPlan::Union { inputs: vec![t1], slice: Some((1, 3)) });
    assert_eq!(lp2.get(t1), &scan(&["a"]));
}

#[test]
fn streaming_join_blocks_slice() {
    let ea: Arena<AExpr> = Arena::new();
    let mut lp: Arena<LogicalPlan> = Arena::new();
    let l = lp.add(scan(&["a"]));
    let r = lp.add(scan(&["b"]));
    let join = LogicalPlan::Join {
        input_left: l,
        input_right: r,
        left_on: vec![],
        right_on: vec![],
        schema: vec![field("a"), field("b")],
        how: JoinType::Inner,
        slice: None,
    };
    let j = lp.add(join.clone());
    let top = LogicalPlan::Slice { input: j, offset: 0, len: 4 };
    let out = SlicePushDown::new(true).optimize(top.clone(), &mut lp, &ea).unwrap();
    match out {
        LogicalPlan::Slice { input, offset, len } => {
            assert_eq!((offset, len), (0, 4));
            assert_eq!(lp.get(input), &join);
        },
        other => panic!("unexpected root {:?}", other),
    }
    let mut lp2: Arena<LogicalPlan> = Arena::new();
    let l2 = lp2.add(scan(&["a"]));
    let r2 = lp2.add(scan(&["b"]));
    let j2 = lp2.add(join.clone());
    assert_eq!((l2, r2, j2), (l, r, j));
    let out2 = SlicePushDown::new(false).optimize(top, &mut lp2, &ea).unwrap();
    match out2 {
        LogicalPlan::Join { slice, .. } => assert_eq!(slice, Some((0, 4))),
        other => panic!("unexpected root {:?}", other),
    }
}

#[test]
fn map_function_without_pushdown_blocks() {
    let ea: Arena<AExpr> = Arena::new();
    let mut lp: Arena<LogicalPlan> = Arena::new();
    let s = lp.add(scan(&["a"]));
    let m = lp.add(LogicalPlan::MapFunction {
        input: s,
        function: FunctionNode::Explode { columns: vec!["a".to_string()] },
        schema: vec![field("a")],
    });
    let top = LogicalPlan::Slice { input: m, offset: 0, len: 2 };
    let out = SlicePushDown::new(false).optimize(top, &mut lp, &ea).unwrap();
    assert!(matches!(out, LogicalPlan::Slice { offset: 0, len: 2, .. }));
    assert_eq!(lp.get(s), &scan(&["a"]));
    let mut lp2: Arena<LogicalPlan> = Arena::new();
    let s2 = lp2.add(scan(&["a"]));
    let m2 = lp2.add(LogicalPlan::MapFunction {
        input: s2,
        function: FunctionNode::Rename { existing: vec!["a".to_string()], new: vec!["z".to_string()] },
        schema: vec![field("z")],
    });
    let top2 = LogicalPlan::Slice { input: m2, offset: 0, len: 2 };
    let out2 = SlicePushDown::new(false).optimize(top2, &mut lp2, &ea).unwrap();
    assert!(matches!(out2, LogicalPlan::MapFunction { .. }));
    match lp2.get(s2) {
        LogicalPlan::Scan { n_rows, .. } => assert_eq!(*n_rows, Some(2)),
        other => panic!("unexpected input {:?}", other),
    }
}

#[test]
fn sort_anchors_slice_and_scan_limit_keeps_smaller() {
    let ea: Arena<AExpr> = Arena::new();
    let mut lp: Arena<LogicalPlan> = Arena::new();
    let s = lp.add(LogicalPlan::Scan {
        path: "x".to_string(),
        schema: vec![field("a")],
        n_rows: Some(3),
        skip_rows: 0,
        predicate: None,
    });
    let inner = lp.add(LogicalPlan::Slice { input: s, offset: 0, len: 10 });
    let args = SortArguments { descending: vec![false], nulls_last: true, maintain_order: true, slice: None };
    let sort = LogicalPlan::Sort { input: inner, by_column: vec![], args };
    let top = LogicalPlan::Slice { input: lp.add(sort), offset: -2, len: 2 };
    let out = SlicePushDown::new(false).optimize(top, &mut lp, &ea).unwrap();
    match out {
        LogicalPlan::Sort { args, .. } => assert_eq!(args.slice, Some((-2, 2))),
        other => panic!("unexpected root {:?}", other),
    }
    match lp.get(inner) {
        LogicalPlan::Scan { n_rows, .. } => assert_eq!(*n_rows, Some(3)),
        other => panic!("unexpected input {:?}", other),
    }
}

#[test]
fn missing_input_is_an_error() {
    let ea: Arena<AExpr> = Arena::new();
    let mut lp: Arena<LogicalPlan> = Arena::new();
    let top = LogicalPlan::Slice { input: Node(5), offset: 0, len: 1 };
    let out = SlicePushDown::new(false).optimize(top, &mut lp, &ea);
    assert_eq!(out, Err(PlanError::ComputeError));
    let mut ea2: Arena<AExpr> = Arena::new();
    assert_eq!(optimize(Node(0), flags(true, false), &mut lp, &mut ea2), Err(PlanError::ComputeError));
}

#[test]
fn optimize_keeps_root_and_output_names() {
    let mut ea: Arena<AExpr> = Arena::new();
    let pred_col = ea.add(AExpr::Column("a".to_string()));
    let pred = ea.add(AExpr::Function {
        input: vec![pred_col],
        function: FunctionExpr::Boolean(BooleanFunction::IsNotNull),
    });
    let mut lp: Arena<LogicalPlan> = Arena::new();
    let s = lp.add(scan(&["a", "b"]));
    let f = lp.add(LogicalPlan::Selection { input: s, predicate: pred });
    let top = lp.add(LogicalPlan::Slice { input: f, offset: 0, len: 3 });
    let before = output_schema(&lp, top, 10);
    assert_eq!(before, Some(vec![field("a"), field("b")]));
    let r = flags(true, false).optimize(top, &mut lp, &mut ea);
    assert_eq!(r, Ok(top));
    assert_eq!(output_schema(&lp, top, 10), before);
    assert!(same_fields(&before.clone().unwrap(), &vec![field("a"), field("b")]));
    assert!(!same_fields(&vec![field("a")], &vec![Field { name: "a".to_string(), dtype: DataType::String }]));
    assert_eq!(output_schema(&lp, top, 1), None);
    // A second run changes nothing.
    let root = lp.get(top).clone();
    let filter = lp.get(f).clone();
    let len = lp.len();
    assert_eq!(root, LogicalPlan::Slice { input: f, offset: 0, len: 3 });
    assert_eq!(optimize(top, flags(true, false), &mut lp, &mut ea), Ok(top));
    assert_eq!(lp.get(top), &root);
    assert_eq!(lp.get(f), &filter);
    assert_eq!(lp.len(), len);
    assert_eq!(lp.get(s), &scan(&["a", "b"]));
    // With slice pushdown off the plan stays as it is.
    let mut lp2: Arena<LogicalPlan> = Arena::new();
    let s2 = lp2.add(scan(&["a"]));
    let t2 = lp2.add(LogicalPlan::Slice { input: s2, offset: 0, len: 3 });
    assert_eq!(optimize(t2, flags(false, false), &mut lp2, &mut ea), Ok(t2));
    assert_eq!(lp2.get(t2), &LogicalPlan::Slice { input: s2, offset: 0, len: 3 });
}

#[test]
fn nested_unions_flatten() {
    let mut ea: Arena<AExpr> = Arena::new();
    let mut lp: Arena<LogicalPlan> = Arena::new();
    let a = lp.add(scan(&["x"]));
    let b = lp.add(scan(&["x"]));
    let c = lp.add(scan(&["x"]));
    let d = lp.add(scan(&["x"]));
    let inner = lp.add(LogicalPlan::Union { inputs: vec![a, b], slice: None });
    let sliced = lp.add(LogicalPlan::Union { inputs: vec![c], slice: Some((0, 1)) });
    let top = lp.add(LogicalPlan::Union { inputs: vec![inner, d, sliced], slice: None });
    let rule = OptimizationRule::FlattenUnion;
    assert_eq!(
        rule.optimize_plan(&lp, &ea, top),
        Some(LogicalPlan::Union { inputs: vec![a, b, d, sliced], slice: None })
    );
    assert_eq!(rule.optimize_plan(&lp, &ea, inner), None);
    assert_eq!(rule.optimize_plan(&lp, &ea, a), None);
    let mut eager = flags(false, false);
    eager.eager = true;
    assert_eq!(optimize(top, eager, &mut lp, &mut ea), Ok(top));
    assert_eq!(lp.get(top), &LogicalPlan::Union { inputs: vec![inner, d, sliced], slice: None });
    assert_eq!(optimize(top, flags(false, false), &mut lp, &mut ea), Ok(top));
    assert_eq!(lp.get(top), &LogicalPlan::Union { inputs: vec![a, b, d, sliced], slice: None });
    let outer = lp.add(LogicalPlan::Union { inputs: vec![top, c], slice: None });
    let opt = StackOptimizer {};
    assert_eq!(opt.optimize_loop(&vec![rule], &ea, &mut lp, outer), Ok(true));
    assert_eq!(lp.get(outer), &LogicalPlan::Union { inputs: vec![a, b, d, sliced, c], slice: None });
}

#[test]
fn scan_takes_offset_as_skip() {
    let ea: Arena<AExpr> = Arena::new();
    let mut lp: Arena<LogicalPlan> = Arena::new();
    let s = lp.add(LogicalPlan::Scan {
        path: "x".to_string(),
        schema: vec![field("a")],
        n_rows: Some(10),
        skip_rows: 1,
        predicate: None,
    });
    let top = LogicalPlan::Slice { input: s, offset: 4, len: 20 };
    let out = SlicePushDown::new(false).optimize(top, &mut lp, &ea).unwrap();
    assert_eq!(
        out,
        LogicalPlan::Scan {
            path: "x".to_string(),
            schema: vec![field("a")],
            n_rows: Some(6),
            skip_rows: 5,
            predicate: None,
        }
    );
    let mut lp2: Arena<LogicalPlan> = Arena::new();
    let s2 = lp2.add(scan(&["a"]));
    let back = LogicalPlan::Slice { input: s2, offset: -1, len: 1 };
    let out2 = SlicePushDown::new(false).optimize(back, &mut lp2, &ea).unwrap();
    assert_eq!(out2, LogicalPlan::Slice { input: s2, offset: -1, len: 1 });
    assert_eq!(lp2.get(s2), &scan(&["a"]));
}
