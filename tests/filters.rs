use lazyplan::arena::{Arena, Node};
use lazyplan::dtype::{DataType, Field};
use lazyplan::expr::{AExpr, LiteralValue, Operator};
use lazyplan::optimizer::{optimize, OptState};
use lazyplan::plan::{JoinType, LogicalPlan};
use lazyplan::predicate_pushdown::{combine_predicates, split_conjuncts, PredicatePushDown};

fn field(name: &str) -> Field {
    Field { name: name.to_string(), dtype: DataType::Int64 }
}

fn scan(names: &[&str]) -> LogicalPlan {
    LogicalPlan::Scan {
        path: "t".to_string(),
        schema: names.iter().map(|n| field(n)).collect(),
        n_rows: None,
        skip_rows: 0,
        predicate: None,
    }
}

fn only_filters() -> OptState {
    OptState {
        predicate_pushdown: true,
        projection_pushdown: false,
        type_coercion: false,
        simplify_expr: false,
        slice_pushdown: false,
        streaming: false,
        fast_projection: false,
        eager: true,
        comm_subplan_elim: false,
        comm_subexpr_elim: false,
        file_caching: false,
    }
}

fn cmp(ea: &mut Arena<AExpr>, col: &str, op: Operator, v: i64) -> Node {
    let c = ea.add(AExpr::Column(col.to_string()));
    let l = ea.add(AExpr::Literal(LiteralValue::Int64(v)));
    ea.add(AExpr::BinaryExpr { left: c, op, right: l })
}

fn and(ea: &mut Arena<AExpr>, a: Node, b: Node) -> Node {
    ea.add(AExpr::BinaryExpr { left: a, op: Operator::And, right: b })
}

/// A join of `l(id, a)` and `r(id, b)` on `id`, under a filter.
fn joined(how: JoinType, ea: &mut Arena<AExpr>, lp: &mut Arena<LogicalPlan>, predicate: Node, slice: Option<(i64, usize)>) -> (Node, Node, Node, Node) {
    let lk = ea.add(AExpr::Column("id".to_string()));
    let rk = ea.add(AExpr::Column("id".to_string()));
    let l = lp.add(scan(&["id", "a"]));
    let r = lp.add(scan(&["id", "b"]));
    let j = lp.add(LogicalPlan::Join {
        input_left: l,
        input_right: r,
        left_on: vec![lk],
        right_on: vec![rk],
        schema: vec![field("id"), field("a"), field("b")],
        how,
        slice,
    });
    let top = lp.add(LogicalPlan::Selection { input: j, predicate });
    (l, r, j, top)
}

#[test]
fn conjuncts_split_and_combine() {
    let mut ea: Arena<AExpr> = Arena::new();
    let p = cmp(&mut ea, "a", Operator::Gt, 1);
    let q = cmp(&mut ea, "b", Operator::Gt, 2);
    let s = cmp(&mut ea, "a", Operator::Lt, 9);
    let pq = and(&mut ea, p, q);
    let all = and(&mut ea, pq, s);
    assert_eq!(split_conjuncts(&ea, all), vec![p, q, s]);
    assert_eq!(split_conjuncts(&ea, p), vec![p]);
    assert_eq!(combine_predicates(&mut ea, &vec![]), None);
    assert_eq!(combine_predicates(&mut ea, &vec![q]), Some(q));
    let n = ea.len();
    let c = combine_predicates(&mut ea, &vec![p, q, s]).unwrap();
    assert_eq!(ea.len(), n + 2);
    assert_eq!(split_conjuncts(&ea, c), vec![p, q, s]);
}

#[test]
fn inner_join_filters_move_to_their_sides() {
    let mut ea: Arena<AExpr> = Arena::new();
    let pa = cmp(&mut ea, "a", Operator::Gt, 1);
    let pb = cmp(&mut ea, "b", Operator::Gt, 2);
    let x = ea.add(AExpr::Column("a".to_string()));
    let y = ea.add(AExpr::Column("b".to_string()));
    let pab = ea.add(AExpr::BinaryExpr { left: x, op: Operator::Lt, right: y });
    let t = and(&mut ea, pa, pb);
    let pred = and(&mut ea, t, pab);
    let mut lp: Arena<LogicalPlan> = Arena::new();
    let (l, r, j, top) = joined(JoinType::Inner, &mut ea, &mut lp, pred, None);
    assert_eq!(optimize(top, only_filters(), &mut lp, &mut ea), Ok(top));
    assert_eq!(lp.get(top), &LogicalPlan::Selection { input: j, predicate: pab });
    match lp.get(j) {
        LogicalPlan::Join { input_left, input_right, .. } => {
            assert_eq!(lp.get(*input_left), &LogicalPlan::Selection { input: l, predicate: pa });
            assert_eq!(lp.get(*input_right), &LogicalPlan::Selection { input: r, predicate: pb });
        },
        other => panic!("unexpected node {:?}", other),
    }
}

#[test]
fn left_join_keeps_right_filter_above() {
    let mut ea: Arena<AExpr> = Arena::new();
    let pb = cmp(&mut ea, "b", Operator::NotEq, 2);
    let mut lp: Arena<LogicalPlan> = Arena::new();
    let (l, r, j, top) = joined(JoinType::Left, &mut ea, &mut lp, pb, None);
    assert_eq!(optimize(top, only_filters(), &mut lp, &mut ea), Ok(top));
    assert_eq!(lp.get(top), &LogicalPlan::Selection { input: j, predicate: pb });
    match lp.get(j) {
        LogicalPlan::Join { input_left, input_right, .. } => {
            assert_eq!((*input_left, *input_right), (l, r));
        },
        other => panic!("unexpected node {:?}", other),
    }
}

#[test]
fn key_filter_goes_to_both_inputs_and_leaves_the_join() {
    let mut ea: Arena<AExpr> = Arena::new();
    let pk = cmp(&mut ea, "id", Operator::Gt, 10);
    let mut lp: Arena<LogicalPlan> = Arena::new();
    let (l, r, _j, top) = joined(JoinType::Left, &mut ea, &mut lp, pk, None);
    assert_eq!(optimize(top, only_filters(), &mut lp, &mut ea), Ok(top));
    match lp.get(top) {
        LogicalPlan::Join { input_left, input_right, how, .. } => {
            assert_eq!(*how, JoinType::Left);
            assert_eq!(lp.get(*input_left), &LogicalPlan::Selection { input: l, predicate: pk });
            assert_eq!(lp.get(*input_right), &LogicalPlan::Selection { input: r, predicate: pk });
        },
        other => panic!("unexpected root {:?}", other),
    }
}

#[test]
fn sliced_join_keeps_its_filter() {
    let mut ea: Arena<AExpr> = Arena::new();
    let pa = cmp(&mut ea, "a", Operator::Gt, 1);
    let mut lp: Arena<LogicalPlan> = Arena::new();
    let (l, _r, j, top) = joined(JoinType::Inner, &mut ea, &mut lp, pa, Some((0, 5)));
    let root = lp.take(top);
    let out = PredicatePushDown::new().optimize(root, &mut lp, &mut ea).unwrap();
    assert_eq!(out, LogicalPlan::Selection { input: j, predicate: pa });
    match lp.get(j) {
        LogicalPlan::Join { input_left, .. } => assert_eq!(*input_left, l),
        other => panic!("unexpected node {:?}", other),
    }
}
