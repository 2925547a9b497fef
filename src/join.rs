use vstd::prelude::*;
use crate::arena::{Arena, Node};
use crate::dtype::{schema_contains, schema_has, Field};
use crate::expr::{
    expr_at, operand_ids, operands, subtree, subtree_nodes, AExpr, BooleanFunction, FunctionExpr,
    Operator,
};
use crate::plan::JoinType;

verus! {

/// A pair of flags, one for each side of a join.
#[derive(Debug, Clone, Copy, PartialEq, Eq, Structural)]
pub struct LeftRight(pub bool, pub bool);

/// The sides into which a join of this type can bring nulls of its own.
pub open spec fn produces_null(how: JoinType) -> LeftRight {
    match how {
        JoinType::Left => LeftRight(false, true),
        JoinType::Outer | JoinType::Cross | JoinType::AsOf => LeftRight(true, true),
        _ => LeftRight(false, false),
    }
}

/// The sides into which a join of this type can bring nulls of its own.
pub fn join_produces_null(how: &JoinType) -> (r: LeftRight)
    ensures
        r == produces_null(*how),
{
    match how {
        JoinType::Left => LeftRight(false, true),
        JoinType::Outer | JoinType::Cross | JoinType::AsOf => LeftRight(true, true),
        _ => LeftRight(false, false),
    }
}

/// The output name of an expression: a column's or an alias's name, else
/// that of its first operand.
pub open spec fn output_name(ea: Seq<Option<AExpr>>, id: Node) -> Option<Seq<char>>
    decreases id.0,
{
    match expr_at(ea, id) {
        Some(AExpr::Column(n)) => Some(n@),
        Some(AExpr::Alias(_, n)) => Some(n@),
        Some(e) => {
            let ops = operands(e);
            if ops.len() > 0 && ops[0].0 < id.0 {
                output_name(ea, ops[0])
            } else {
                None
            }
        },
        None => None,
    }
}

/// The output name of an expression (see [`output_name`]).
pub fn aexpr_output_name(id: Node, ea: &Arena<AExpr>) -> (r: Option<String>)
    ensures
        r matches Some(s) ==> output_name(ea@, id) == Some(s@),
        r is None ==> output_name(ea@, id) is None,
    decreases id.0,
{
    match ea.try_get(id) {
        Some(AExpr::Column(n)) => Some(n.clone()),
        Some(AExpr::Alias(_, n)) => Some(n.clone()),
        Some(e) => {
            let ops = operand_ids(e);
            if ops.len() > 0 && ops[0].0 < id.0 {
                aexpr_output_name(ops[0], ea)
            } else {
                None
            }
        },
        None => None,
    }
}

/// The expression tree reads a column of this name.
pub open spec fn reads_column(ea: Seq<Option<AExpr>>, id: Node, name: Seq<char>) -> bool {
    subtree(ea, id) matches Some(ns) && exists|i: int|
        0 <= i < ns.len() && (#[trigger] expr_at(ea, ns[i]) matches Some(AExpr::Column(c))
            && c@ == name)
}

/// Whether the expression tree reads a column of this name.
pub fn reads_column_exec(ea: &Arena<AExpr>, id: Node, name: &String) -> (r: bool)
    ensures
        r == reads_column(ea@, id, name@),
{
    let nodes = match subtree_nodes(ea, id) {
        Some(v) => v,
        None => {
            return false;
        },
    };
    let ghost ns = nodes@;
    let mut i: usize = 0;
    while i < nodes.len()
        invariant
            nodes@ == ns,
            subtree(ea@, id) == Some(ns),
            i <= ns.len(),
            forall|j: int|
                0 <= j < i ==> !(#[trigger] expr_at(ea@, ns[j]) matches Some(AExpr::Column(c))
                    && c@ == name@),
        decreases ns.len() - i,
    {
        let ghost at = expr_at(ea@, nodes[i as int]);
        match ea.try_get(nodes[i]) {
            Some(AExpr::Column(c)) => {
                if *c == *name {
                    assert(at matches Some(AExpr::Column(c)) && c@ == name@);
                    return true;
                }
            },
            _ => {},
        }
        i = i + 1;
    }
    false
}

/// The column names that the join keys read.
pub open spec fn is_on_name(
    ea: Seq<Option<AExpr>>,
    left_on: Seq<Node>,
    right_on: Seq<Node>,
    name: Seq<char>,
) -> bool {
    (exists|k: int| 0 <= k < left_on.len() && #[trigger] reads_column(ea, left_on[k], name)) || (
    exists|k: int| 0 <= k < right_on.len() && #[trigger] reads_column(ea, right_on[k], name))
}

fn any_reads(ea: &Arena<AExpr>, keys: &Vec<Node>, name: &String) -> (r: bool)
    ensures
        r == exists|k: int| 0 <= k < keys@.len() && #[trigger] reads_column(ea@, keys@[k], name@),
{
    let mut i: usize = 0;
    while i < keys.len()
        invariant
            i <= keys@.len(),
            forall|k: int| 0 <= k < i ==> !#[trigger] reads_column(ea@, keys@[k], name@),
        decreases keys@.len() - i,
    {
        if reads_column_exec(ea, keys[i], name) {
            return true;
        }
        i = i + 1;
    }
    false
}

/// What a join needs to know to route a predicate.
pub struct JoinContext {
    pub how: JoinType,
    pub left_on: Vec<Node>,
    pub right_on: Vec<Node>,
    pub schema_left: Vec<Field>,
    pub schema_right: Vec<Field>,
}

/// The context of a join as plain values.
pub struct JoinView {
    pub how: JoinType,
    pub left_on: Seq<Node>,
    pub right_on: Seq<Node>,
    pub schema_left: Seq<Field>,
    pub schema_right: Seq<Field>,
}

impl View for JoinContext {
    type V = JoinView;

    open spec fn view(&self) -> JoinView {
        JoinView {
            how: self.how,
            left_on: self.left_on@,
            right_on: self.right_on@,
            schema_left: self.schema_left@,
            schema_right: self.schema_right@,
        }
    }
}

impl JoinContext {
    pub open spec fn on_name(&self, ea: Seq<Option<AExpr>>, name: Seq<char>) -> bool {
        is_on_name(ea, self.left_on@, self.right_on@, name)
    }

    /// Whether the join keys read a column of this name.
    pub fn contains_on_name(&self, ea: &Arena<AExpr>, name: &String) -> (r: bool)
        ensures
            r == self.on_name(ea@, name@),
    {
        any_reads(ea, &self.left_on, name) || any_reads(ea, &self.right_on, name)
    }
}

/// The operand has a name, which a join key reads.
pub open spec fn named_key(ctx: JoinView, ea: Seq<Option<AExpr>>, name: Option<Seq<char>>) -> bool {
    name matches Some(n) && is_on_name(ea, ctx.left_on, ctx.right_on, n)
}

/// The operand has a name, which the schema has.
pub open spec fn named_in(schema: Seq<Field>, name: Option<Seq<char>>) -> bool {
    name matches Some(n) && schema_has(schema, n)
}

fn name_in_schema(schema: &Vec<Field>, name: &Option<String>) -> (r: bool)
    ensures
        r == named_in(schema@, match name {
            Some(n) => Some(n@),
            None => None,
        }),
{
    match name {
        Some(n) => schema_contains(schema, n),
        None => false,
    }
}

/// On which sides one expression node forbids moving a filter below the
/// join. Null tests are blocked where the join brings nulls; tests for
/// duplicates everywhere, as a join may repeat rows. An equality on a join
/// key may pass to a side that has the column; other equalities, and those
/// with an operand that has no name (a literal), are blocked where the join
/// brings nulls. Every other expression, `!=` and the other binary
/// operators included, is unrestricted.
pub open spec fn block_of(ctx: JoinView, ea: Seq<Option<AExpr>>, ae: AExpr) -> LeftRight {
    match ae {
        AExpr::Function { function, .. } => match function {
            FunctionExpr::Boolean(b) => {
                if b is IsNull || b is IsNotNull || b is IsIn {
                    produces_null(ctx.how)
                } else if b is IsUnique || b is IsDuplicated || b is IsFirstDistinct {
                    LeftRight(true, true)
                } else {
                    LeftRight(false, false)
                }
            },
            FunctionExpr::FillNull => produces_null(ctx.how),
            _ => LeftRight(false, false),
        },
        AExpr::BinaryExpr { left, op, right } => match op {
            Operator::NotEq => LeftRight(false, false),
            Operator::Eq => {
                let nulls = produces_null(ctx.how);
                let l = output_name(ea, left);
                let r = output_name(ea, right);
                if named_key(ctx, ea, l) || named_key(ctx, ea, r) {
                    let in_left = named_in(ctx.schema_left, l) || named_in(ctx.schema_left, r);
                    let in_right = named_in(ctx.schema_right, l) || named_in(ctx.schema_right, r);
                    LeftRight(nulls.0 && !in_left, nulls.1 && !in_right)
                } else {
                    nulls
                }
            },
            _ => LeftRight(false, false),
        },
        _ => LeftRight(false, false),
    }
}

/// On which sides one expression node forbids moving a filter below the
/// join (see [`block_of`]).
pub fn should_block_join_specific(ae: &AExpr, ctx: &JoinContext, expr_arena: &Arena<AExpr>) -> (r:
    LeftRight)
    ensures
        r == block_of(ctx@, expr_arena@, *ae),
{
    match ae {
        AExpr::Function { function, .. } => match function {
            FunctionExpr::Boolean(b) => match b {
                BooleanFunction::IsNull | BooleanFunction::IsNotNull | BooleanFunction::IsIn => {
                    join_produces_null(&ctx.how)
                },
                BooleanFunction::IsUnique
                | BooleanFunction::IsDuplicated
                | BooleanFunction::IsFirstDistinct => LeftRight(true, true),
                _ => LeftRight(false, false),
            },
            FunctionExpr::FillNull => join_produces_null(&ctx.how),
            _ => LeftRight(false, false),
        },
        AExpr::BinaryExpr { left, op, right } => match op {
            Operator::NotEq => LeftRight(false, false),
            Operator::Eq => {
                let nulls = join_produces_null(&ctx.how);
                let l = aexpr_output_name(*left, expr_arena);
                let r = aexpr_output_name(*right, expr_arena);
                let l_key = match &l {
                    Some(n) => ctx.contains_on_name(expr_arena, n),
                    None => false,
                };
                let r_key = match &r {
                    Some(n) => ctx.contains_on_name(expr_arena, n),
                    None => false,
                };
                if l_key || r_key {
                    let in_left = name_in_schema(&ctx.schema_left, &l) || name_in_schema(
                        &ctx.schema_left,
                        &r,
                    );
                    let in_right = name_in_schema(&ctx.schema_right, &l) || name_in_schema(
                        &ctx.schema_right,
                        &r,
                    );
                    LeftRight(nulls.0 && !in_left, nulls.1 && !in_right)
                } else {
                    nulls
                }
            },
            _ => LeftRight(false, false),
        },
        _ => LeftRight(false, false),
    }
}

/// Some node of the predicate forbids the side (`left` or right); an
/// ill-formed predicate is blocked on both sides.
pub open spec fn blocked(ctx: JoinView, ea: Seq<Option<AExpr>>, p: Node, left: bool) -> bool {
    match subtree(ea, p) {
        Some(ns) => exists|i: int|
            0 <= i < ns.len() && (#[trigger] expr_at(ea, ns[i]) matches Some(e) && (if left {
                block_of(ctx, ea, e).0
            } else {
                block_of(ctx, ea, e).1
            })),
        None => true,
    }
}

/// Every column that the predicate reads is in the schema.
pub open spec fn reads_within(ea: Seq<Option<AExpr>>, p: Node, schema: Seq<Field>) -> bool {
    subtree(ea, p) matches Some(ns) && forall|i: int|
        0 <= i < ns.len() ==> (#[trigger] expr_at(ea, ns[i]) matches Some(AExpr::Column(c))
            ==> schema_has(schema, c@))
}

/// Every column that the predicate reads is a left join key.
pub open spec fn reads_only_left_keys(ea: Seq<Option<AExpr>>, p: Node, left_on: Seq<Node>) -> bool {
    subtree(ea, p) matches Some(ns) && forall|i: int|
        0 <= i < ns.len() ==> (#[trigger] expr_at(ea, ns[i]) matches Some(AExpr::Column(c))
            ==> is_key_column(ea, left_on, c@))
}

/// One of the keys is the bare column of this name.
pub open spec fn is_key_column(ea: Seq<Option<AExpr>>, keys: Seq<Node>, name: Seq<char>) -> bool {
    exists|k: int|
        0 <= k < keys.len() && (#[trigger] expr_at(ea, keys[k]) matches Some(AExpr::Column(d))
            && d@ == name)
}

/// Where a predicate above a join goes.
#[derive(Debug, Clone, Copy, PartialEq, Eq, Structural)]
pub struct Route {
    pub left: bool,
    pub right: bool,
    pub local: bool,
}

/// The routing of a predicate: to the left input where it reads only left
/// columns and no node blocks the left side; then also to the right for
/// inner, left and semi joins where it reads only left keys that the right
/// input has too. Else to the right input where it reads only right columns
/// and no node blocks the right side, but never for a left join, which would
/// lose the left rows with no match. What goes nowhere stays above the join.
pub open spec fn route(ctx: JoinView, ea: Seq<Option<AExpr>>, p: Node) -> Route {
    let left = !blocked(ctx, ea, p, true) && reads_within(ea, p, ctx.schema_left);
    let right = if left {
        reads_only_left_keys(ea, p, ctx.left_on) && (ctx.how is Inner || ctx.how is Left
            || ctx.how is Semi) && reads_within(ea, p, ctx.schema_right)
    } else {
        !blocked(ctx, ea, p, false) && reads_within(ea, p, ctx.schema_right) && !(ctx.how is Left)
    };
    Route { left, right, local: !left && !right }
}

/// Whether some node of the predicate forbids the side (see [`blocked`]).
pub fn has_blocking_node(ctx: &JoinContext, ea: &Arena<AExpr>, p: Node, left: bool) -> (r: bool)
    ensures
        r == blocked(ctx@, ea@, p, left),
{
    let nodes = match subtree_nodes(ea, p) {
        Some(v) => v,
        None => {
            return true;
        },
    };
    let ghost ns = nodes@;
    let mut i: usize = 0;
    while i < nodes.len()
        invariant
            nodes@ == ns,
            subtree(ea@, p) == Some(ns),
            i <= ns.len(),
            forall|j: int|
                0 <= j < i ==> !(#[trigger] expr_at(ea@, ns[j]) matches Some(e) && (if left {
                    block_of(ctx@, ea@, e).0
                } else {
                    block_of(ctx@, ea@, e).1
                })),
        decreases ns.len() - i,
    {
        let ghost at = expr_at(ea@, nodes[i as int]);
        match ea.try_get(nodes[i]) {
            Some(e) => {
                let b = should_block_join_specific(e, ctx, ea);
                if (left && b.0) || (!left && b.1) {
                    assert(at == Some(*e));
                    return true;
                }
            },
            None => {},
        }
        i = i + 1;
    }
    false
}

/// Whether every column that the predicate reads is in the schema.
pub fn check_input_node(p: Node, schema: &Vec<Field>, ea: &Arena<AExpr>) -> (r: bool)
    ensures
        r == reads_within(ea@, p, schema@),
{
    let nodes = match subtree_nodes(ea, p) {
        Some(v) => v,
        None => {
            return false;
        },
    };
    let ghost ns = nodes@;
    let mut i: usize = 0;
    while i < nodes.len()
        invariant
            nodes@ == ns,
            subtree(ea@, p) == Some(ns),
            i <= ns.len(),
            forall|j: int|
                0 <= j < i ==> (#[trigger] expr_at(ea@, ns[j]) matches Some(AExpr::Column(c))
                    ==> schema_has(schema@, c@)),
        decreases ns.len() - i,
    {
        let ghost at = expr_at(ea@, nodes[i as int]);
        match ea.try_get(nodes[i]) {
            Some(AExpr::Column(c)) => {
                if !schema_contains(schema, c) {
                    assert(at == Some(AExpr::Column(*c)));
                    return false;
                }
            },
            _ => {},
        }
        i = i + 1;
    }
    true
}

fn is_key_column_exec(ea: &Arena<AExpr>, keys: &Vec<Node>, name: &String) -> (r: bool)
    ensures
        r == is_key_column(ea@, keys@, name@),
{
    let mut k: usize = 0;
    while k < keys.len()
        invariant
            k <= keys@.len(),
            forall|j: int|
                0 <= j < k ==> !(#[trigger] expr_at(ea@, keys@[j]) matches Some(AExpr::Column(d))
                    && d@ == name@),
        decreases keys@.len() - k,
    {
        let ghost at = expr_at(ea@, keys@[k as int]);
        match ea.try_get(keys[k]) {
            Some(AExpr::Column(d)) => {
                if *d == *name {
                    assert(at == Some(AExpr::Column(*d)));
                    return true;
                }
            },
            _ => {},
        }
        k = k + 1;
    }
    false
}

/// Whether every column that the predicate reads is a left join key.
pub fn all_pred_cols_in_left_on(predicate: Node, expr_arena: &Arena<AExpr>, left_on: &Vec<Node>) -> (r:
    bool)
    ensures
        r == reads_only_left_keys(expr_arena@, predicate, left_on@),
{
    let nodes = match subtree_nodes(expr_arena, predicate) {
        Some(v) => v,
        None => {
            return false;
        },
    };
    let ghost ns = nodes@;
    let mut i: usize = 0;
    while i < nodes.len()
        invariant
            nodes@ == ns,
            subtree(expr_arena@, predicate) == Some(ns),
            i <= ns.len(),
            forall|j: int|
                0 <= j < i ==> (#[trigger] expr_at(expr_arena@, ns[j]) matches Some(AExpr::Column(c))
                    ==> is_key_column(expr_arena@, left_on@, c@)),
        decreases ns.len() - i,
    {
        let ghost at = expr_at(expr_arena@, nodes[i as int]);
        match expr_arena.try_get(nodes[i]) {
            Some(AExpr::Column(c)) => {
                if !is_key_column_exec(expr_arena, left_on, c) {
                    assert(at == Some(AExpr::Column(*c)));
                    return false;
                }
            },
            _ => {},
        }
        i = i + 1;
    }
    true
}

/// Where one predicate above the join goes (see [`route`]).
pub fn route_predicate(ctx: &JoinContext, expr_arena: &Arena<AExpr>, predicate: Node) -> (r: Route)
    ensures
        r == route(ctx@, expr_arena@, predicate),
{
    let mut filter_left = false;
    let mut filter_right = false;
    if !has_blocking_node(ctx, expr_arena, predicate, true) && check_input_node(
        predicate,
        &ctx.schema_left,
        expr_arena,
    ) {
        filter_left = true;
        // A predicate on the left keys alone holds of the right keys too.
        if all_pred_cols_in_left_on(predicate, expr_arena, &ctx.left_on) {
            filter_right = match ctx.how {
                JoinType::Inner | JoinType::Left | JoinType::Semi => check_input_node(
                    predicate,
                    &ctx.schema_right,
                    expr_arena,
                ),
                _ => false,
            };
        }
    } else if !has_blocking_node(ctx, expr_arena, predicate, false) && check_input_node(
        predicate,
        &ctx.schema_right,
        expr_arena,
    ) {
        // A left join must not filter its right input alone.
        filter_right = !matches!(ctx.how, JoinType::Left);
    }
    Route { left: filter_left, right: filter_right, local: !filter_left && !filter_right }
}

/// The predicates of `preds` that go to the left input, to the right input,
/// or stay above the join, in their order.
pub open spec fn routed(ctx: JoinView, ea: Seq<Option<AExpr>>, preds: Seq<Node>, which: int) -> Seq<
    Node,
>
    decreases preds.len(),
{
    if preds.len() == 0 {
        Seq::empty()
    } else {
        let before = routed(ctx, ea, preds.drop_last(), which);
        let r = route(ctx, ea, preds.last());
        if (which == 0 && r.left) || (which == 1 && r.right) || (which == 2 && r.local) {
            before.push(preds.last())
        } else {
            before
        }
    }
}

/// The predicates that a join sends to its left input, to its right input,
/// and those that stay above it.
pub struct JoinPushdown {
    pub left: Vec<Node>,
    pub right: Vec<Node>,
    pub local: Vec<Node>,
}

/// Splits the predicates above a join by [`route`], keeping their order.
pub fn process_join(ctx: &JoinContext, expr_arena: &Arena<AExpr>, acc_predicates: &Vec<Node>) -> (r:
    JoinPushdown)
    ensures
        r.left@ == routed(ctx@, expr_arena@, acc_predicates@, 0),
        r.right@ == routed(ctx@, expr_arena@, acc_predicates@, 1),
        r.local@ == routed(ctx@, expr_arena@, acc_predicates@, 2),
{
    let mut pushdown_left: Vec<Node> = Vec::new();
    let mut pushdown_right: Vec<Node> = Vec::new();
    let mut local_predicates: Vec<Node> = Vec::new();
    let mut i: usize = 0;
    while i < acc_predicates.len()
        invariant
            i <= acc_predicates@.len(),
            pushdown_left@ == routed(ctx@, expr_arena@, acc_predicates@.subrange(0, i as int), 0),
            pushdown_right@ == routed(ctx@, expr_arena@, acc_predicates@.subrange(0, i as int), 1),
            local_predicates@ == routed(ctx@, expr_arena@, acc_predicates@.subrange(0, i as int), 2),
        decreases acc_predicates@.len() - i,
    {
        let predicate = acc_predicates[i];
        let r = route_predicate(ctx, expr_arena, predicate);
        if r.left {
            pushdown_left.push(predicate);
        }
        if r.right {
            pushdown_right.push(predicate);
        }
        if r.local {
            local_predicates.push(predicate);
        }
        proof {
            let next = acc_predicates@.subrange(0, i as int + 1);
            assert(next.drop_last() =~= acc_predicates@.subrange(0, i as int));
            assert(next.last() == predicate);
        }
        i = i + 1;
    }
    proof {
        assert(acc_predicates@.subrange(0, acc_predicates@.len() as int) =~= acc_predicates@);
    }
    JoinPushdown { left: pushdown_left, right: pushdown_right, local: local_predicates }
}

/// A left join never sends a predicate to its right input alone: whatever
/// goes right also goes left, and a predicate that reads a column outside
/// the left input stays above the join.
pub proof fn lemma_left_join_null_safety(ctx: JoinView, ea: Seq<Option<AExpr>>, p: Node)
    requires
        ctx.how is Left,
    ensures
        route(ctx, ea, p).right ==> route(ctx, ea, p).left,
        !reads_within(ea, p, ctx.schema_left) ==> route(ctx, ea, p).local,
{
}

/// Every predicate goes somewhere: to one input at least, or above the join.
pub proof fn lemma_route_total(ctx: JoinView, ea: Seq<Option<AExpr>>, p: Node)
    ensures
        route(ctx, ea, p).left || route(ctx, ea, p).right || route(ctx, ea, p).local,
        route(ctx, ea, p).local ==> !route(ctx, ea, p).left && !route(ctx, ea, p).right,
{
}

/// Under a left join, every predicate of a list that goes to the right
/// input goes to the left input too.
pub proof fn lemma_left_join_right_within_left(
    ctx: JoinView,
    ea: Seq<Option<AExpr>>,
    preds: Seq<Node>,
)
    requires
        ctx.how is Left,
    ensures
        forall|i: int|
            0 <= i < routed(ctx, ea, preds, 1).len() ==> routed(ctx, ea, preds, 0).contains(
                #[trigger] routed(ctx, ea, preds, 1)[i],
            ),
    decreases preds.len(),
{
    if preds.len() > 0 {
        let rest = preds.drop_last();
        lemma_left_join_right_within_left(ctx, ea, rest);
        lemma_left_join_null_safety(ctx, ea, preds.last());
        let l0 = routed(ctx, ea, rest, 0);
        let l1 = routed(ctx, ea, rest, 1);
        assert forall|i: int|
            0 <= i < routed(ctx, ea, preds, 1).len() implies routed(ctx, ea, preds, 0).contains(
            #[trigger] routed(ctx, ea, preds, 1)[i],
        ) by {
            let x = routed(ctx, ea, preds, 1)[i];
            if i < l1.len() {
                assert(x == l1[i]);
                assert(l0.contains(x));
                let j = choose|j: int| 0 <= j < l0.len() && l0[j] == x;
                assert(routed(ctx, ea, preds, 0)[j] == x);
            } else {
                assert(x == preds.last());
                assert(route(ctx, ea, preds.last()).left);
                assert(routed(ctx, ea, preds, 0).last() == x);
            }
        }
    }
}

} // verus!
