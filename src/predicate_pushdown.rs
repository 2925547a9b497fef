use vstd::prelude::*;
use crate::arena::{Arena, Node};
use crate::error::{PlanError, PlanResult};
use crate::expr::{expr_at, AExpr, Operator};
use crate::join::{process_join, routed, JoinContext, JoinView};
use crate::plan::{output_schema, plan_inputs, schema_at, LogicalPlan};
use crate::slice_pushdown::{root_fuel, slot_live};

verus! {

/// The conjuncts of a predicate: the operands of its nested `&` nodes, in
/// order.
pub open spec fn conjuncts(ea: Seq<Option<AExpr>>, p: Node) -> Seq<Node>
    decreases p.0,
{
    match expr_at(ea, p) {
        Some(AExpr::BinaryExpr { left, op: Operator::And, right }) => {
            if left.0 < p.0 && right.0 < p.0 {
                conjuncts(ea, left) + conjuncts(ea, right)
            } else {
                seq![p]
            }
        },
        _ => seq![p],
    }
}

/// The conjuncts of a predicate (see [`conjuncts`]).
pub fn split_conjuncts(ea: &Arena<AExpr>, p: Node) -> (r: Vec<Node>)
    ensures
        r@ == conjuncts(ea@, p),
    decreases p.0,
{
    match ea.try_get(p) {
        Some(AExpr::BinaryExpr { left, op: Operator::And, right }) => {
            if left.0 < p.0 && right.0 < p.0 {
                let mut out = split_conjuncts(ea, *left);
                let rest = split_conjuncts(ea, *right);
                let ghost start = out@;
                let mut i: usize = 0;
                while i < rest.len()
                    invariant
                        i <= rest@.len(),
                        out@ == start + rest@.subrange(0, i as int),
                    decreases rest@.len() - i,
                {
                    out.push(rest[i]);
                    i = i + 1;
                    proof {
                        assert(out@ =~= start + rest@.subrange(0, i as int));
                    }
                }
                proof {
                    assert(rest@.subrange(0, rest@.len() as int) =~= rest@);
                }
                out
            } else {
                vec![p]
            }
        },
        _ => vec![p],
    }
}

/// `n` is the `&` of `preds`, from the left: `((p0 & p1) & p2) ...`.
pub open spec fn is_and_of(ea: Seq<Option<AExpr>>, n: Node, preds: Seq<Node>) -> bool
    decreases preds.len(),
{
    if preds.len() == 0 {
        false
    } else if preds.len() == 1 {
        n == preds[0]
    } else {
        match expr_at(ea, n) {
            Some(AExpr::BinaryExpr { left, op: Operator::And, right }) => right == preds.last()
                && is_and_of(ea, left, preds.drop_last()),
            _ => false,
        }
    }
}

/// Nodes added to an arena leave the expressions already there as they were.
proof fn lemma_and_of_kept(ea: Seq<Option<AExpr>>, more: Seq<Option<AExpr>>, n: Node, preds: Seq<Node>)
    requires
        is_and_of(ea, n, preds),
        more.len() >= ea.len(),
        more.subrange(0, ea.len() as int) == ea,
    ensures
        is_and_of(more, n, preds),
    decreases preds.len(),
{
    if preds.len() > 1 {
        assert(n.0 < ea.len());
        assert(more[n.0 as int] == more.subrange(0, ea.len() as int)[n.0 as int]);
        if let Some(AExpr::BinaryExpr { left, op: Operator::And, right }) = expr_at(ea, n) {
            lemma_and_of_kept(ea, more, left, preds.drop_last());
        }
    }
}

/// The `&` of the predicates, from the left, and the expression arena with
/// the `&` nodes that it takes added at its end; `None` for no predicate.
pub open spec fn combined(ea: Seq<Option<AExpr>>, preds: Seq<Node>) -> (Option<Node>, Seq<Option<AExpr>>)
    decreases preds.len(),
{
    if preds.len() == 0 {
        (None, ea)
    } else if preds.len() == 1 {
        (Some(preds[0]), ea)
    } else {
        let (acc, ea1) = combined(ea, preds.drop_last());
        (
            Some(Node(ea1.len() as usize)),
            ea1.push(Some(AExpr::BinaryExpr { left: acc->Some_0, op: Operator::And, right: preds.last() })),
        )
    }
}

proof fn lemma_combined_some(ea: Seq<Option<AExpr>>, preds: Seq<Node>)
    ensures
        combined(ea, preds).0 is Some <==> preds.len() > 0,
    decreases preds.len(),
{
    if preds.len() > 1 {
        lemma_combined_some(ea, preds.drop_last());
    }
}

/// The `&` of the predicates, added to the arena as needed (see
/// [`combined`]); `None` for no predicate.
pub fn combine_predicates(ea: &mut Arena<AExpr>, preds: &Vec<Node>) -> (r: Option<Node>)
    ensures
        (r, final(ea)@) == combined(old(ea)@, preds@),
        r matches Some(n) ==> is_and_of(final(ea)@, n, preds@),
{
    if preds.len() == 0 {
        return None;
    }
    let ghost start = ea@;
    let mut acc = preds[0];
    let mut i: usize = 1;
    proof {
        assert(preds@.subrange(0, 1) =~= seq![preds@[0]]);
    }
    while i < preds.len()
        invariant
            1 <= i <= preds@.len(),
            start == old(ea)@,
            (Some(acc), ea@) == combined(start, preds@.subrange(0, i as int)),
            is_and_of(ea@, acc, preds@.subrange(0, i as int)),
        decreases preds@.len() - i,
    {
        let ghost before = ea@;
        let ghost prev = acc;
        acc = ea.add(AExpr::BinaryExpr { left: acc, op: Operator::And, right: preds[i] });
        proof {
            assert(ea@.subrange(0, before.len() as int) =~= before);
            lemma_and_of_kept(before, ea@, prev, preds@.subrange(0, i as int));
            let next = preds@.subrange(0, i as int + 1);
            assert(next.drop_last() =~= preds@.subrange(0, i as int));
        }
        i = i + 1;
    }
    proof {
        assert(preds@.subrange(0, preds@.len() as int) =~= preds@);
    }
    Some(acc)
}

/// The conjuncts of the predicate that go to the left input (`which` 0), to
/// the right input (1), or stay above the join (2).
pub open spec fn split_for(ctx: JoinView, ea: Seq<Option<AExpr>>, p: Node, which: int) -> Seq<Node> {
    routed(ctx, ea, conjuncts(ea, p), which)
}


/// Moving the conjuncts of `predicate` above a join with context `ctx` and
/// inputs `input_left` and `input_right`: each side's conjuncts, if any, go
/// into a new filter node on that input, at the end of the plan arena; their
/// `&`s, and that of the conjuncts left above the join, are added to the
/// expression arena. Gives the new inputs and the `&` that stays above.
pub open spec fn split_into_join(
    ctx: JoinView,
    input_left: Node,
    input_right: Node,
    predicate: Node,
    lp: Seq<Option<LogicalPlan>>,
    ea: Seq<Option<AExpr>>,
) -> ((Node, Node, Option<Node>), Seq<Option<LogicalPlan>>, Seq<Option<AExpr>>) {
    let (cl, ea1) = combined(ea, split_for(ctx, ea, predicate, 0));
    let (cr, ea2) = combined(ea1, split_for(ctx, ea, predicate, 1));
    let (local, ea3) = combined(ea2, split_for(ctx, ea, predicate, 2));
    let (nl, lp1) = match cl {
        Some(c) => (
            Node(lp.len() as usize),
            lp.push(Some(LogicalPlan::Selection { input: input_left, predicate: c })),
        ),
        None => (input_left, lp),
    };
    let (nr, lp2) = match cr {
        Some(c) => (
            Node(lp1.len() as usize),
            lp1.push(Some(LogicalPlan::Selection { input: input_right, predicate: c })),
        ),
        None => (input_right, lp1),
    };
    ((nl, nr, local), lp2, ea3)
}

/// Moves the conjuncts of a filter above a join into filters above its
/// inputs, as [`crate::join::route`] says (see [`split_into_join`]).
/// Returns the new left and right inputs and the `&` of the conjuncts that
/// stay above the join.
pub fn filter_into_join(
    ctx: &JoinContext,
    input_left: Node,
    input_right: Node,
    predicate: Node,
    lp_arena: &mut Arena<LogicalPlan>,
    expr_arena: &mut Arena<AExpr>,
) -> (r: (Node, Node, Option<Node>))
    ensures
        (r, final(lp_arena)@, final(expr_arena)@) == split_into_join(
            ctx@,
            input_left,
            input_right,
            predicate,
            old(lp_arena)@,
            old(expr_arena)@,
        ),
{
    let preds = split_conjuncts(expr_arena, predicate);
    let routing = process_join(ctx, expr_arena, &preds);
    let left = combine_predicates(expr_arena, &routing.left);
    let right = combine_predicates(expr_arena, &routing.right);
    let local = combine_predicates(expr_arena, &routing.local);
    let new_left = match left {
        Some(c) => lp_arena.add(LogicalPlan::Selection { input: input_left, predicate: c }),
        None => input_left,
    };
    let new_right = match right {
        Some(c) => lp_arena.add(LogicalPlan::Selection { input: input_right, predicate: c }),
        None => input_right,
    };
    (new_left, new_right, local)
}

/// The context of the join `join`, taken out of the arena `a` (now `rest`).
pub open spec fn join_view_of(rest: Seq<Option<LogicalPlan>>, join: LogicalPlan) -> JoinView {
    JoinView {
        how: join->Join_how,
        left_on: join->Join_left_on@,
        right_on: join->Join_right_on@,
        schema_left: schema_at(rest, join->Join_input_left, rest.len())->Some_0,
        schema_right: schema_at(rest, join->Join_input_right, rest.len())->Some_0,
    }
}

/// The join at `input` of the arena `a`, taken out of its slot, has no
/// slice and its inputs have known schemas: the filter may move below it.
pub open spec fn join_takes_filter(a: Seq<Option<LogicalPlan>>, input: Node) -> bool {
    let rest = a.update(input.0 as int, None);
    input.0 < a.len() && (a[input.0 as int] matches Some(
        LogicalPlan::Join { input_left, input_right, slice: None, .. },
    ) && schema_at(rest, input_left, a.len()) is Some && schema_at(rest, input_right, a.len())
        is Some)
}

/// What the filter `Selection { input, predicate }` becomes, with the plan
/// and expression arenas after. Over a join that takes the filter, its
/// conjuncts move as [`split_into_join`] says; the conjuncts left stay in a
/// filter over the join, in its slot, or the join takes the filter's place
/// when there is none. Elsewhere the filter stays as it is. A missing
/// input is an error.
pub open spec fn filter_pushed(
    a: Seq<Option<LogicalPlan>>,
    ea: Seq<Option<AExpr>>,
    input: Node,
    predicate: Node,
) -> (PlanResult<LogicalPlan>, Seq<Option<LogicalPlan>>, Seq<Option<AExpr>>) {
    if !slot_live(a, input) {
        (Err(PlanError::ComputeError), a, ea)
    } else if !join_takes_filter(a, input) {
        (Ok(LogicalPlan::Selection { input, predicate }), a, ea)
    } else {
        let join = a[input.0 as int]->Some_0;
        let rest = a.update(input.0 as int, None);
        let ((nl, nr, local), lp1, ea1) = split_into_join(
            join_view_of(rest, join),
            join->Join_input_left,
            join->Join_input_right,
            predicate,
            rest,
            ea,
        );
        let new_join = LogicalPlan::Join {
            input_left: nl,
            input_right: nr,
            left_on: join->Join_left_on,
            right_on: join->Join_right_on,
            schema: join->Join_schema,
            how: join->Join_how,
            slice: join->Join_slice,
        };
        match local {
            Some(c) => (
                Ok(LogicalPlan::Selection { input, predicate: c }),
                lp1.update(input.0 as int, Some(new_join)),
                ea1,
            ),
            None => (Ok(new_join), lp1, ea1),
        }
    }
}

/// The filter pass over the node `lp`, taken out of its slot, `fuel` levels
/// deep at most: the node itself first (see [`filter_pushed`]), then each
/// input of what it became, in its own slot, in order. A missing input is an
/// error.
pub open spec fn pred_pushed(
    a: Seq<Option<LogicalPlan>>,
    ea: Seq<Option<AExpr>>,
    lp: LogicalPlan,
    fuel: nat,
) -> (PlanResult<LogicalPlan>, Seq<Option<LogicalPlan>>, Seq<Option<AExpr>>)
    decreases fuel, 2int, 0int,
{
    if fuel == 0 {
        (Ok(lp), a, ea)
    } else {
        let (r0, a0, ea0) = match lp {
            LogicalPlan::Selection { input, predicate } => filter_pushed(a, ea, input, predicate),
            _ => (Ok(lp), a, ea),
        };
        match r0 {
            Err(_) => (Err(PlanError::ComputeError), a0, ea0),
            Ok(node) => {
                let (r1, a1, ea1) = pred_inputs(a0, ea0, plan_inputs(node), fuel);
                if r1 is Err {
                    (Err(PlanError::ComputeError), a1, ea1)
                } else {
                    (Ok(node), a1, ea1)
                }
            },
        }
    }
}

/// The filter pass over the inputs `ids` in turn, each in its own slot.
pub open spec fn pred_inputs(
    a: Seq<Option<LogicalPlan>>,
    ea: Seq<Option<AExpr>>,
    ids: Seq<Node>,
    fuel: nat,
) -> (PlanResult<()>, Seq<Option<LogicalPlan>>, Seq<Option<AExpr>>)
    decreases fuel, 1int, ids.len(),
{
    if ids.len() == 0 || fuel == 0 {
        (Ok(()), a, ea)
    } else {
        let (r, a1, ea1) = pred_inputs(a, ea, ids.drop_last(), fuel);
        let id = ids.last();
        if r is Err {
            (r, a1, ea1)
        } else if !slot_live(a1, id) {
            (Err(PlanError::ComputeError), a1, ea1)
        } else {
            let (r2, a2, ea2) = pred_pushed(
                a1.update(id.0 as int, None),
                ea1,
                a1[id.0 as int]->Some_0,
                (fuel - 1) as nat,
            );
            match r2 {
                Err(_) => (Err(PlanError::ComputeError), a2, ea2),
                Ok(x) => (Ok(()), a2.update(id.0 as int, Some(x)), ea2),
            }
        }
    }
}

proof fn lemma_pred_inputs_fail(
    a: Seq<Option<LogicalPlan>>,
    ea: Seq<Option<AExpr>>,
    ids: Seq<Node>,
    fuel: nat,
    k: int,
)
    requires
        0 < k <= ids.len(),
        fuel > 0,
        pred_inputs(a, ea, ids.subrange(0, k), fuel).0 is Err,
    ensures
        pred_inputs(a, ea, ids, fuel) == pred_inputs(a, ea, ids.subrange(0, k), fuel),
    decreases ids.len() - k,
{
    if k < ids.len() {
        let next = ids.subrange(0, k + 1);
        assert(next.drop_last() =~= ids.subrange(0, k));
        lemma_pred_inputs_fail(a, ea, ids, fuel, k + 1);
    } else {
        assert(ids.subrange(0, k) =~= ids);
    }
}

/// Moves filters below the joins under them, top-down.
pub struct PredicatePushDown {}

impl PredicatePushDown {
    pub fn new() -> (r: Self) {
        PredicatePushDown {}
    }

    /// The node that the filter `Selection { input, predicate }` becomes
    /// (see [`filter_pushed`]).
    fn push_filter(
        &self,
        input: Node,
        predicate: Node,
        lp_arena: &mut Arena<LogicalPlan>,
        expr_arena: &mut Arena<AExpr>,
    ) -> (r: PlanResult<LogicalPlan>)
        ensures
            final(lp_arena)@.len() >= old(lp_arena)@.len(),
            (r, final(lp_arena)@, final(expr_arena)@) == filter_pushed(
                old(lp_arena)@,
                old(expr_arena)@,
                input,
                predicate,
            ),
    {
        if !lp_arena.contains(input) {
            return Err(PlanError::ComputeError);
        }
        if !matches!(lp_arena.get(input), LogicalPlan::Join { .. }) {
            return Ok(LogicalPlan::Selection { input, predicate });
        }
        let ghost a = lp_arena@;
        let join = lp_arena.take(input);
        match join {
            LogicalPlan::Join { input_left, input_right, left_on, right_on, schema, how, slice } => {
                let n = lp_arena.len();
                let schema_left = output_schema(lp_arena, input_left, n);
                let schema_right = output_schema(lp_arena, input_right, n);
                // A filter does not move below a slice.
                if slice.is_some() || schema_left.is_none() || schema_right.is_none() {
                    lp_arena.replace(
                        input,
                        LogicalPlan::Join {
                            input_left,
                            input_right,
                            left_on,
                            right_on,
                            schema,
                            how,
                            slice,
                        },
                    );
                    proof {
                        assert(lp_arena@ =~= a);
                    }
                    return Ok(LogicalPlan::Selection { input, predicate });
                }
                let ctx = JoinContext {
                    how,
                    left_on,
                    right_on,
                    schema_left: schema_left.unwrap(),
                    schema_right: schema_right.unwrap(),
                };
                let (new_left, new_right, local) = filter_into_join(
                    &ctx,
                    input_left,
                    input_right,
                    predicate,
                    lp_arena,
                    expr_arena,
                );
                let JoinContext { how, left_on, right_on, .. } = ctx;
                let new_join = LogicalPlan::Join {
                    input_left: new_left,
                    input_right: new_right,
                    left_on,
                    right_on,
                    schema,
                    how,
                    slice,
                };
                match local {
                    Some(c) => {
                        lp_arena.replace(input, new_join);
                        Ok(LogicalPlan::Selection { input, predicate: c })
                    },
                    None => Ok(new_join),
                }
            },
            other => {
                lp_arena.replace(input, other);
                proof {
                    assert(lp_arena@ =~= a);
                }
                Ok(LogicalPlan::Selection { input, predicate })
            },
        }
    }

    /// The filter pass over the node `lp`, taken out of its slot (see
    /// [`pred_pushed`]).
    fn pushdown(
        &self,
        lp: LogicalPlan,
        lp_arena: &mut Arena<LogicalPlan>,
        expr_arena: &mut Arena<AExpr>,
        fuel: usize,
    ) -> (r: PlanResult<LogicalPlan>)
        ensures
            final(lp_arena)@.len() >= old(lp_arena)@.len(),
            (r, final(lp_arena)@, final(expr_arena)@) == pred_pushed(
                old(lp_arena)@,
                old(expr_arena)@,
                lp,
                fuel as nat,
            ),
        decreases fuel, 2int,
    {
        if fuel == 0 {
            return Ok(lp);
        }
        let lp = match lp {
            LogicalPlan::Selection { input, predicate } => match self.push_filter(
                input,
                predicate,
                lp_arena,
                expr_arena,
            ) {
                Ok(x) => x,
                Err(_) => {
                    return Err(PlanError::ComputeError);
                },
            },
            other => other,
        };
        match self.pushdown_inputs(&lp, lp_arena, expr_arena, fuel) {
            Ok(()) => Ok(lp),
            Err(_) => Err(PlanError::ComputeError),
        }
    }

    /// The filter pass over each input of the node, in order (see
    /// [`pred_inputs`]).
    fn pushdown_inputs(
        &self,
        lp: &LogicalPlan,
        lp_arena: &mut Arena<LogicalPlan>,
        expr_arena: &mut Arena<AExpr>,
        fuel: usize,
    ) -> (r: PlanResult<()>)
        requires
            fuel > 0,
        ensures
            final(lp_arena)@.len() >= old(lp_arena)@.len(),
            (r, final(lp_arena)@, final(expr_arena)@) == pred_inputs(
                old(lp_arena)@,
                old(expr_arena)@,
                plan_inputs(*lp),
                fuel as nat,
            ),
        decreases fuel, 1int,
    {
        let ghost a0 = lp_arena@;
        let ghost e0 = expr_arena@;
        let inputs = lp.get_inputs();
        let mut i: usize = 0;
        while i < inputs.len()
            invariant
                i <= inputs@.len(),
                fuel > 0,
                inputs@ == plan_inputs(*lp),
                a0 == old(lp_arena)@,
                e0 == old(expr_arena)@,
                lp_arena@.len() >= a0.len(),
                pred_inputs(a0, e0, inputs@.subrange(0, i as int), fuel as nat) == (
                    Ok::<(), PlanError>(()),
                    lp_arena@,
                    expr_arena@,
                ),
            decreases inputs@.len() - i,
        {
            let node = inputs[i];
            let ghost pre = inputs@.subrange(0, i as int + 1);
            proof {
                assert(pre.drop_last() =~= inputs@.subrange(0, i as int));
                assert(pre.last() == node);
            }
            if !lp_arena.contains(node) {
                proof {
                    lemma_pred_inputs_fail(a0, e0, inputs@, fuel as nat, i as int + 1);
                }
                return Err(PlanError::ComputeError);
            }
            let alp = lp_arena.take(node);
            match self.pushdown(alp, lp_arena, expr_arena, fuel - 1) {
                Ok(x) => {
                    lp_arena.replace(node, x);
                },
                Err(_) => {
                    proof {
                        lemma_pred_inputs_fail(a0, e0, inputs@, fuel as nat, i as int + 1);
                    }
                    return Err(PlanError::ComputeError);
                },
            }
            i = i + 1;
        }
        proof {
            assert(inputs@.subrange(0, inputs@.len() as int) =~= inputs@);
        }
        Ok(())
    }

    /// Runs the pass from the root of a plan (see [`pred_pushed`]).
    pub fn optimize(
        &self,
        logical_plan: LogicalPlan,
        lp_arena: &mut Arena<LogicalPlan>,
        expr_arena: &mut Arena<AExpr>,
    ) -> (r: PlanResult<LogicalPlan>)
        ensures
            final(lp_arena)@.len() >= old(lp_arena)@.len(),
            (r, final(lp_arena)@, final(expr_arena)@) == pred_pushed(
                old(lp_arena)@,
                old(expr_arena)@,
                logical_plan,
                root_fuel(old(lp_arena)@.len()),
            ),
    {
        let n = lp_arena.len();
        let fuel = if n < usize::MAX { n + 1 } else { n };
        self.pushdown(logical_plan, lp_arena, expr_arena, fuel)
    }
}

} // verus!
