use lazyplan::arena::{Arena, Node};
use lazyplan::dtype::{DataType, Field};
use lazyplan::expr::{AExpr, BooleanFunction, FunctionExpr, LiteralValue, Operator};
use lazyplan::join::{
    all_pred_cols_in_left_on, check_input_node, join_produces_null, process_join, route_predicate,
    should_block_join_specific, JoinContext, LeftRight, Route,
};
use lazyplan::plan::JoinType;

fn field(name: &str) -> Field {
    Field { name: name.to_string(), dtype: DataType::Int64 }
}

fn ctx(how: JoinType, ea: &mut Arena<AExpr>) -> JoinContext {
    let lk = ea.add(AExpr::Column("id".to_string()));
    let rk = ea.add(AExpr::Column("id".to_string()));
    JoinContext {
        how,
        left_on: vec![lk],
        right_on: vec![rk],
        schema_left: vec![field("id"), field("a")],
        schema_right: vec![field("id"), field("b")],
    }
}

fn gt(ea: &mut Arena<AExpr>, col: &str, v: i64) -> Node {
    let c = ea.add(AExpr::Column(col.to_string()));
    let l = ea.add(AExpr::Literal(LiteralValue::Int64(v)));
    ea.add(AExpr::BinaryExpr { left: c, op: Operator::Gt, right: l })
}

#[test]
fn null_production_matrix() {
    assert_eq!(join_produces_null(&JoinType::Left), LeftRight(false, true));
    assert_eq!(join_produces_null(&JoinType::Outer), LeftRight(true, true));
    assert_eq!(join_produces_null(&JoinType::Cross), LeftRight(true, true));
    assert_eq!(join_produces_null(&JoinType::AsOf), LeftRight(true, true));
    assert_eq!(join_produces_null(&JoinType::Inner), LeftRight(false, false));
    assert_eq!(join_produces_null(&JoinType::Semi), LeftRight(false, false));
    assert_eq!(join_produces_null(&JoinType::Anti), LeftRight(false, false));
}

#[test]
fn left_join_keeps_right_only_predicate_local() {
    let mut ea: Arena<AExpr> = Arena::new();
    let c = ctx(JoinType::Left, &mut ea);
    let b = ea.add(AExpr::Column("b".to_string()));
    let ne = ea.add(AExpr::Literal(LiteralValue::Int64(3)));
    let pred = ea.add(AExpr::BinaryExpr { left: b, op: Operator::NotEq, right: ne });
    let r = route_predicate(&c, &ea, pred);
    assert_eq!(r, Route { left: false, right: false, local: true });
    // Under an inner join the same predicate goes right.
    let inner = ctx(JoinType::Inner, &mut ea);
    assert_eq!(route_predicate(&inner, &ea, pred), Route { left: false, right: true, local: false });
}

#[test]
fn key_predicate_goes_to_both_sides() {
    let mut ea: Arena<AExpr> = Arena::new();
    let c = ctx(JoinType::Inner, &mut ea);
    let pred = gt(&mut ea, "id", 10);
    assert!(all_pred_cols_in_left_on(pred, &ea, &c.left_on));
    assert_eq!(route_predicate(&c, &ea, pred), Route { left: true, right: true, local: false });
    let left = ctx(JoinType::Left, &mut ea);
    assert_eq!(route_predicate(&left, &ea, pred), Route { left: true, right: true, local: false });
    let outer = ctx(JoinType::Outer, &mut ea);
    // A comparison is unrestricted; only inner, left and semi joins copy a
    // key filter to the right.
    assert_eq!(route_predicate(&outer, &ea, pred), Route { left: true, right: false, local: false });
    let c = ea.add(AExpr::Column("a".to_string()));
    let five = ea.add(AExpr::Literal(LiteralValue::Int64(5)));
    let eq_lit = ea.add(AExpr::BinaryExpr { left: c, op: Operator::Eq, right: five });
    // An equality with a literal is blocked only where the join brings nulls.
    let inner = ctx(JoinType::Inner, &mut ea);
    assert_eq!(route_predicate(&inner, &ea, eq_lit), Route { left: true, right: false, local: false });
    assert_eq!(route_predicate(&outer, &ea, eq_lit), Route { left: false, right: false, local: true });
    let key_lit = ea.add(AExpr::BinaryExpr { left: five, op: Operator::Eq, right: c });
    assert_eq!(should_block_join_specific(&AExpr::BinaryExpr { left: five, op: Operator::Eq, right: c }, &outer, &ea), LeftRight(true, true));
    assert!(check_input_node(key_lit, &outer.schema_left, &ea));
    let id = ea.add(AExpr::Column("id".to_string()));
    let key_eq = AExpr::BinaryExpr { left: id, op: Operator::Eq, right: five };
    assert_eq!(should_block_join_specific(&key_eq, &outer, &ea), LeftRight(false, false));
    let lt = AExpr::BinaryExpr { left: c, op: Operator::Lt, right: five };
    assert_eq!(should_block_join_specific(&lt, &outer, &ea), LeftRight(false, false));
}

#[test]
fn null_tests_and_duplicates_are_blocked() {
    let mut ea: Arena<AExpr> = Arena::new();
    let c = ctx(JoinType::Left, &mut ea);
    let b = ea.add(AExpr::Column("b".to_string()));
    let is_null = AExpr::Function { input: vec![b], function: FunctionExpr::Boolean(BooleanFunction::IsNull) };
    assert_eq!(should_block_join_specific(&is_null, &c, &ea), LeftRight(false, true));
    let fill = AExpr::Function { input: vec![b], function: FunctionExpr::FillNull };
    assert_eq!(should_block_join_specific(&fill, &c, &ea), LeftRight(false, true));
    let uniq = AExpr::Function { input: vec![b], function: FunctionExpr::Boolean(BooleanFunction::IsUnique) };
    assert_eq!(should_block_join_specific(&uniq, &c, &ea), LeftRight(true, true));
    let first = AExpr::Function {
        input: vec![b],
        function: FunctionExpr::Boolean(BooleanFunction::IsFirstDistinct),
    };
    assert_eq!(should_block_join_specific(&first, &c, &ea), LeftRight(true, true));
    let ne = AExpr::BinaryExpr { left: b, op: Operator::NotEq, right: b };
    assert_eq!(should_block_join_specific(&ne, &c, &ea), LeftRight(false, false));
    assert_eq!(should_block_join_specific(&AExpr::Column("b".to_string()), &c, &ea), LeftRight(false, false));
    let a = ea.add(AExpr::Column("a".to_string()));
    let is_null_a = ea.add(AExpr::Function {
        input: vec![a],
        function: FunctionExpr::Boolean(BooleanFunction::IsNull),
    });
    // Left columns only, and a left join brings no nulls to the left.
    assert_eq!(route_predicate(&c, &ea, is_null_a), Route { left: true, right: false, local: false });
}

#[test]
fn key_equality_passes_to_side_with_the_column() {
    let mut ea: Arena<AExpr> = Arena::new();
    let c = ctx(JoinType::Outer, &mut ea);
    let id = ea.add(AExpr::Column("id".to_string()));
    let a = ea.add(AExpr::Column("a".to_string()));
    let eq_key = AExpr::BinaryExpr { left: id, op: Operator::Eq, right: a };
    assert_eq!(should_block_join_specific(&eq_key, &c, &ea), LeftRight(false, false));
    let b = ea.add(AExpr::Column("b".to_string()));
    let eq_other = AExpr::BinaryExpr { left: a, op: Operator::Eq, right: b };
    assert_eq!(should_block_join_specific(&eq_other, &c, &ea), LeftRight(true, true));
}

#[test]
fn process_join_splits_in_order() {
    let mut ea: Arena<AExpr> = Arena::new();
    let c = ctx(JoinType::Inner, &mut ea);
    let p_a = gt(&mut ea, "a", 1);
    let p_b = gt(&mut ea, "b", 2);
    let p_id = gt(&mut ea, "id", 3);
    let x = ea.add(AExpr::Column("a".to_string()));
    let y = ea.add(AExpr::Column("b".to_string()));
    let p_ab = ea.add(AExpr::BinaryExpr { left: x, op: Operator::Lt, right: y });
    assert!(check_input_node(p_a, &c.schema_left, &ea));
    assert!(!check_input_node(p_ab, &c.schema_left, &ea));
    let out = process_join(&c, &ea, &vec![p_a, p_b, p_id, p_ab]);
    assert_eq!(out.left, vec![p_a, p_id]);
    assert_eq!(out.right, vec![p_b, p_id]);
    assert_eq!(out.local, vec![p_ab]);
}
