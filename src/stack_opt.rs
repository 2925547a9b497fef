use vstd::prelude::*;
use crate::arena::{Arena, Node};
use crate::error::{PlanError, PlanResult};
use crate::slice_pushdown::root_fuel;
use crate::expr::AExpr;
use crate::plan::{plan_inputs, LogicalPlan};

verus! {

/// The most passes that the fixed-point loop makes.
pub const MAX_ITERATIONS: usize = 64;

/// The inputs of the node at `n` when it is a union without a slice.
pub open spec fn unsliced_union_inputs(arena: Seq<Option<LogicalPlan>>, n: Node) -> Option<Seq<Node>> {
    if n.0 < arena.len() {
        match arena[n.0 as int] {
            Some(LogicalPlan::Union { inputs, slice: None }) => Some(inputs@),
            _ => None,
        }
    } else {
        None
    }
}

/// The inputs of a union with each input that is a union without a slice
/// replaced by that union's inputs.
pub open spec fn flattened(arena: Seq<Option<LogicalPlan>>, ids: Seq<Node>) -> Seq<Node>
    decreases ids.len(),
{
    if ids.len() == 0 {
        Seq::empty()
    } else {
        flattened(arena, ids.drop_last()) + match unsliced_union_inputs(arena, ids.last()) {
            Some(inner) => inner,
            None => seq![ids.last()],
        }
    }
}

/// Some of the ids is a union without a slice.
pub open spec fn has_union_input(arena: Seq<Option<LogicalPlan>>, ids: Seq<Node>) -> bool {
    exists|i: int| 0 <= i < ids.len() && #[trigger] unsliced_union_inputs(arena, ids[i]) is Some
}

/// The rules of the fixed-point loop.
#[derive(Debug, Clone, Copy, PartialEq, Eq, Structural)]
pub enum OptimizationRule {
    /// A union of unions without slices becomes one union.
    FlattenUnion,
}

/// What a rule makes of the node at `node`: `r` is the node's replacement,
/// `None` where the rule does not apply.
pub open spec fn rule_outcome(
    rule: OptimizationRule,
    arena: Seq<Option<LogicalPlan>>,
    node: Node,
    r: Option<LogicalPlan>,
) -> bool {
    match rule {
        OptimizationRule::FlattenUnion => {
            if node.0 < arena.len() && (arena[node.0 as int] matches Some(
                LogicalPlan::Union { inputs, .. },
            ) && has_union_input(arena, inputs@)) {
                r matches Some(LogicalPlan::Union { inputs: new_inputs, slice: new_slice })
                    && new_inputs@ == flattened(arena, arena[node.0 as int]->Some_0->Union_inputs@)
                    && new_slice == arena[node.0 as int]->Some_0->Union_slice
            } else {
                r is None
            }
        },
    }
}

impl OptimizationRule {
    /// The replacement of the node at `node`, if the rule applies there.
    pub fn optimize_plan(
        &self,
        lp_arena: &Arena<LogicalPlan>,
        _expr_arena: &Arena<AExpr>,
        node: Node,
    ) -> (r: Option<LogicalPlan>)
        ensures
            rule_outcome(*self, lp_arena@, node, r),
    {
        match self {
            OptimizationRule::FlattenUnion => {
                match lp_arena.try_get(node) {
                    Some(LogicalPlan::Union { inputs, slice }) => {
                        let mut out: Vec<Node> = Vec::new();
                        let mut changed = false;
                        let mut i: usize = 0;
                        while i < inputs.len()
                            invariant
                                i <= inputs@.len(),
                                out@ == flattened(lp_arena@, inputs@.subrange(0, i as int)),
                                changed == has_union_input(lp_arena@, inputs@.subrange(0, i as int)),
                            decreases inputs@.len() - i,
                        {
                            let id = inputs[i];
                            let ghost prefix = inputs@.subrange(0, i as int + 1);
                            proof {
                                assert(prefix.drop_last() =~= inputs@.subrange(0, i as int));
                                assert(prefix.last() == id);
                            }
                            let ghost before = out@;
                            match lp_arena.try_get(id) {
                                Some(LogicalPlan::Union { inputs: inner, slice: None }) => {
                                    let mut j: usize = 0;
                                    while j < inner.len()
                                        invariant
                                            j <= inner@.len(),
                                            out@ == before + inner@.subrange(0, j as int),
                                        decreases inner@.len() - j,
                                    {
                                        out.push(inner[j]);
                                        j = j + 1;
                                        proof {
                                            assert(out@ =~= before + inner@.subrange(0, j as int));
                                        }
                                    }
                                    proof {
                                        assert(inner@.subrange(0, inner@.len() as int) =~= inner@);
                                        assert(unsliced_union_inputs(lp_arena@, id) == Some(inner@));
                                        assert(prefix[i as int] == id);
                                    }
                                    changed = true;
                                },
                                _ => {
                                    out.push(id);
                                    proof {
                                        assert(unsliced_union_inputs(lp_arena@, id) is None);
                                        if !changed {
                                            assert forall|k: int| 0 <= k < prefix.len() implies !(
                                            #[trigger] unsliced_union_inputs(lp_arena@, prefix[k]) is Some) by {
                                                if k < i {
                                                    assert(prefix[k] == inputs@.subrange(0, i as int)[k]);
                                                }
                                            }
                                        } else {
                                            let k = choose|k: int| 0 <= k < i && #[trigger] unsliced_union_inputs(lp_arena@, inputs@.subrange(0, i as int)[k]) is Some;
                                            assert(prefix[k] == inputs@.subrange(0, i as int)[k]);
                                        }
                                    }
                                },
                            }
                            i = i + 1;
                        }
                        proof {
                            assert(inputs@.subrange(0, inputs@.len() as int) =~= inputs@);
                        }
                        if changed {
                            Some(LogicalPlan::Union { inputs: out, slice: *slice })
                        } else {
                            None
                        }
                    },
                    _ => None,
                }
            },
        }
    }
}

/// No rule applies at the node at `node` nor, `fuel` levels deep, below it.
pub open spec fn settled(
    rules: Seq<OptimizationRule>,
    a: Seq<Option<LogicalPlan>>,
    node: Node,
    fuel: nat,
) -> bool
    decreases fuel,
{
    fuel == 0 || (node.0 < a.len() && a[node.0 as int] is Some && (forall|k: int|
        0 <= k < rules.len() ==> rule_outcome(#[trigger] rules[k], a, node, None)) && (forall|i: int|
        0 <= i < plan_inputs(a[node.0 as int]->Some_0).len() ==> settled(
            rules,
            a,
            #[trigger] plan_inputs(a[node.0 as int]->Some_0)[i],
            (fuel - 1) as nat,
        )))
}

/// Applies a list of rules over a plan until none changes it.
pub struct StackOptimizer {}

impl StackOptimizer {
    /// Applies each rule at the node at `node`, then in its inputs, `fuel`
    /// levels deep at most. Returns whether a rule changed a node. A missing
    /// node is an error.
    fn apply_rules(
        &self,
        rules: &Vec<OptimizationRule>,
        lp_arena: &mut Arena<LogicalPlan>,
        expr_arena: &Arena<AExpr>,
        node: Node,
        fuel: usize,
    ) -> (r: PlanResult<bool>)
        ensures
            final(lp_arena)@.len() == old(lp_arena)@.len(),
            r is Err ==> r == Err::<bool, PlanError>(PlanError::ComputeError),
            r == Ok::<bool, PlanError>(false) ==> final(lp_arena)@ == old(lp_arena)@ && settled(
                rules@,
                old(lp_arena)@,
                node,
                fuel as nat,
            ),
            rules@.len() == 0 ==> final(lp_arena)@ == old(lp_arena)@,
            settled(rules@, old(lp_arena)@, node, fuel as nat) ==> r == Ok::<bool, PlanError>(false),
            forall|j: int|
                0 <= j < old(lp_arena)@.len() && old(lp_arena)@[j] is Some
                    ==> (#[trigger] final(lp_arena)@[j]) is Some,
        decreases fuel,
    {
        if fuel == 0 {
            return Ok(false);
        }
        if !lp_arena.contains(node) {
            return Err(PlanError::ComputeError);
        }
        let ghost start = lp_arena@;
        let mut changed = false;
        let mut k: usize = 0;
        while k < rules.len()
            invariant
                k <= rules@.len(),
                fuel > 0,
                start == old(lp_arena)@,
                lp_arena@.len() == start.len(),
                node.0 < start.len(),
                start[node.0 as int] is Some,
                !changed ==> lp_arena@ == start,
                !changed ==> forall|j: int| 0 <= j < k ==> rule_outcome(#[trigger] rules@[j], start, node, None),
                settled(rules@, start, node, fuel as nat) ==> !changed,
                rules@.len() == 0 ==> lp_arena@ == start,
                forall|j: int|
                    0 <= j < start.len() && start[j] is Some ==> #[trigger] lp_arena@[j] is Some,
            decreases rules@.len() - k,
        {
            proof {
                if settled(rules@, start, node, fuel as nat) {
                    assert(rule_outcome(rules@[k as int], start, node, None));
                }
            }
            match rules[k].optimize_plan(lp_arena, expr_arena, node) {
                Some(new) => {
                    lp_arena.replace(node, new);
                    changed = true;
                },
                None => {},
            }
            k = k + 1;
        }
        if !lp_arena.contains(node) {
            return Err(PlanError::ComputeError);
        }
        let inputs = lp_arena.get(node).get_inputs();
        let mut i: usize = 0;
        while i < inputs.len()
            invariant
                i <= inputs@.len(),
                fuel > 0,
                start == old(lp_arena)@,
                lp_arena@.len() == start.len(),
                node.0 < start.len(),
                start[node.0 as int] is Some,
                !changed ==> lp_arena@ == start,
                !changed ==> inputs@ == plan_inputs(start[node.0 as int]->Some_0),
                !changed ==> forall|j: int| 0 <= j < rules@.len() ==> rule_outcome(#[trigger] rules@[j], start, node, None),
                !changed ==> forall|j: int| 0 <= j < i ==> settled(rules@, start, #[trigger] inputs@[j], (fuel - 1) as nat),
                settled(rules@, start, node, fuel as nat) ==> !changed,
                rules@.len() == 0 ==> lp_arena@ == start,
                forall|j: int|
                    0 <= j < start.len() && start[j] is Some ==> #[trigger] lp_arena@[j] is Some,
            decreases inputs@.len() - i,
        {
            proof {
                if settled(rules@, start, node, fuel as nat) {
                    assert(inputs@[i as int] == plan_inputs(start[node.0 as int]->Some_0)[i as int]);
                    assert(settled(rules@, start, inputs@[i as int], (fuel - 1) as nat));
                }
            }
            let c = self.apply_rules(rules, lp_arena, expr_arena, inputs[i], fuel - 1)?;
            changed = changed || c;
            proof {
                if !changed {
                    assert(settled(rules@, start, inputs@[i as int], (fuel - 1) as nat));
                }
            }
            i = i + 1;
        }
        proof {
            if !changed {
                assert forall|q: int|
                    0 <= q < plan_inputs(start[node.0 as int]->Some_0).len() implies settled(
                    rules@,
                    start,
                    #[trigger] plan_inputs(start[node.0 as int]->Some_0)[q],
                    (fuel - 1) as nat,
                ) by {
                    assert(inputs@[q] == plan_inputs(start[node.0 as int]->Some_0)[q]);
                }
            }
        }
        Ok(changed)
    }

    /// Applies the rules over the plan rooted at `lp_top`, pass after pass,
    /// until a pass changes nothing or `MAX_ITERATIONS` passes have run.
    /// Returns whether it stopped at a fixed point: then no rule applies
    /// anywhere in the plan.
    pub fn optimize_loop(
        &self,
        rules: &Vec<OptimizationRule>,
        expr_arena: &Arena<AExpr>,
        lp_arena: &mut Arena<LogicalPlan>,
        lp_top: Node,
    ) -> (r: PlanResult<bool>)
        ensures
            final(lp_arena)@.len() == old(lp_arena)@.len(),
            r == Ok::<bool, PlanError>(true) ==> settled(
                rules@,
                final(lp_arena)@,
                lp_top,
                root_fuel(old(lp_arena)@.len()),
            ),
            r is Err ==> r == Err::<bool, PlanError>(PlanError::ComputeError),
            rules@.len() == 0 ==> final(lp_arena)@ == old(lp_arena)@,
            settled(rules@, old(lp_arena)@, lp_top, root_fuel(old(lp_arena)@.len())) ==> r
                == Ok::<bool, PlanError>(true) && final(lp_arena)@ == old(lp_arena)@,
            forall|j: int|
                0 <= j < old(lp_arena)@.len() && old(lp_arena)@[j] is Some
                    ==> (#[trigger] final(lp_arena)@[j]) is Some,
    {
        let ghost start = lp_arena@;
        let n = lp_arena.len();
        let fuel = if n < usize::MAX { n + 1 } else { n };
        let mut i: usize = 0;
        while i < MAX_ITERATIONS
            invariant
                start == old(lp_arena)@,
                fuel as nat == root_fuel(start.len()),
                lp_arena@.len() == start.len(),
                rules@.len() == 0 ==> lp_arena@ == start,
                settled(rules@, start, lp_top, fuel as nat) ==> lp_arena@ == start && i == 0,
                forall|j: int|
                    0 <= j < start.len() && start[j] is Some ==> #[trigger] lp_arena@[j] is Some,
            decreases MAX_ITERATIONS - i,
        {
            let changed = self.apply_rules(rules, lp_arena, expr_arena, lp_top, fuel)?;
            if !changed {
                return Ok(true);
            }
            i = i + 1;
        }
        Ok(false)
    }
}

} // verus!
