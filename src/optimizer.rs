use vstd::prelude::*;
use crate::arena::{Arena, Node};
use crate::dtype::{DataType, Field};
use crate::error::{PlanError, PlanResult};
use crate::expr::AExpr;
use crate::plan::{plan_inputs, LogicalPlan};
use crate::plan::{output_schema, schema_at};
use crate::predicate_pushdown::{pred_pushed, PredicatePushDown};
use crate::slice_pushdown::{pushed_down, root_fuel, slot_live, SlicePushDown};
use crate::stack_opt::{settled, OptimizationRule, StackOptimizer};

verus! {

/// The switches of the optimizer.
#[derive(Debug, Clone, Copy, PartialEq, Eq, Structural)]
pub struct OptState {
    pub predicate_pushdown: bool,
    pub projection_pushdown: bool,
    pub type_coercion: bool,
    pub simplify_expr: bool,
    pub slice_pushdown: bool,
    /// The plan runs on a streaming engine.
    pub streaming: bool,
    pub fast_projection: bool,
    /// A single query runs at once: skip what only pays off across queries.
    pub eager: bool,
    pub comm_subplan_elim: bool,
    pub comm_subexpr_elim: bool,
    pub file_caching: bool,
}

/// Something that optimizes the plan rooted at a node of an arena.
pub trait Optimize {
    fn optimize(
        &self,
        logical_plan: Node,
        lp_arena: &mut Arena<LogicalPlan>,
        expr_arena: &mut Arena<AExpr>,
    ) -> PlanResult<Node>;
}

/// The names and types of a schema's fields, in order.
pub open spec fn field_views(schema: Seq<Field>) -> Seq<(Seq<char>, DataType)> {
    schema.map_values(|f: Field| (f.name@, f.dtype))
}

/// The output schema of the plan rooted at `id` as names and types (see
/// [`schema_at`]).
pub open spec fn schema_view_at(arena: Seq<Option<LogicalPlan>>, id: Node, fuel: nat) -> Option<
    Seq<(Seq<char>, DataType)>,
> {
    match schema_at(arena, id, fuel) {
        Some(schema) => Some(field_views(schema)),
        None => None,
    }
}

/// Whether two schemas have the same names and types, in order.
pub fn same_fields(a: &Vec<Field>, b: &Vec<Field>) -> (r: bool)
    ensures
        r == (field_views(a@) == field_views(b@)),
{
    if a.len() != b.len() {
        proof {
            assert(field_views(a@).len() != field_views(b@).len());
        }
        return false;
    }
    let mut i: usize = 0;
    while i < a.len()
        invariant
            a@.len() == b@.len(),
            i <= a@.len(),
            forall|j: int|
                0 <= j < i ==> (#[trigger] a@[j]).name@ == b@[j].name@ && a@[j].dtype == b@[j].dtype,
        decreases a@.len() - i,
    {
        if a[i].name != b[i].name || a[i].dtype != b[i].dtype {
            proof {
                assert(field_views(a@)[i as int] != field_views(b@)[i as int]);
            }
            return false;
        }
        i = i + 1;
    }
    proof {
        assert(field_views(a@) =~= field_views(b@));
    }
    true
}

/// The slice pushdown run from the root `top`, taken out of its slot and
/// put back: the new root node and the arena after it.
pub open spec fn slice_pass(
    a: Seq<Option<LogicalPlan>>,
    top: Node,
    streaming: bool,
    ea: Seq<Option<AExpr>>,
) -> (PlanResult<LogicalPlan>, Seq<Option<LogicalPlan>>) {
    let (r, a2) = pushed_down(
        a.update(top.0 as int, None),
        a[top.0 as int]->Some_0,
        None,
        streaming,
        ea,
        root_fuel(a.len()),
        None,
    );
    match r {
        Ok(x) => (Ok(x), a2.update(top.0 as int, Some(x))),
        Err(e) => (Err(e), a2),
    }
}

/// The filter pass run from the root `top`, taken out of its slot and put
/// back: whether it succeeded, and the plan and expression arenas after it.
pub open spec fn pred_pass(a: Seq<Option<LogicalPlan>>, ea: Seq<Option<AExpr>>, top: Node) -> (
    PlanResult<()>,
    Seq<Option<LogicalPlan>>,
    Seq<Option<AExpr>>,
) {
    let (r, a2, e2) = pred_pushed(
        a.update(top.0 as int, None),
        ea,
        a[top.0 as int]->Some_0,
        root_fuel(a.len()),
    );
    match r {
        Ok(x) => (Ok(()), a2.update(top.0 as int, Some(x)), e2),
        Err(_) => (Err(PlanError::ComputeError), a2, e2),
    }
}

/// The pushdown passes that the switches enable, in turn: the filter pass,
/// then the slice pass. Whether they succeeded, and the plan and expression
/// arenas after them; a failing pass stops there.
pub open spec fn passes(
    a: Seq<Option<LogicalPlan>>,
    ea: Seq<Option<AExpr>>,
    top: Node,
    s: OptState,
) -> (PlanResult<()>, Seq<Option<LogicalPlan>>, Seq<Option<AExpr>>) {
    let (r1, a1, e1) = if s.predicate_pushdown {
        pred_pass(a, ea, top)
    } else {
        (Ok(()), a, ea)
    };
    if r1 is Err {
        (r1, a1, e1)
    } else if s.slice_pushdown {
        let (r2, a2) = slice_pass(a1, top, s.streaming, e1);
        match r2 {
            Ok(_) => (Ok(()), a2, e1),
            Err(_) => (Err(PlanError::ComputeError), a2, e1),
        }
    } else {
        (Ok(()), a1, e1)
    }
}

/// Every node reachable from `id`, `fuel` levels deep, is held by its slot.
pub open spec fn reachable_live(a: Seq<Option<LogicalPlan>>, id: Node, fuel: nat) -> bool
    decreases fuel,
{
    fuel == 0 || (slot_live(a, id) && forall|i: int|
        0 <= i < plan_inputs(a[id.0 as int]->Some_0).len() ==> reachable_live(
            a,
            #[trigger] plan_inputs(a[id.0 as int]->Some_0)[i],
            (fuel - 1) as nat,
        ))
}

/// Whether every node reachable from `id` is held by its slot (see
/// [`reachable_live`]).
pub fn all_reachable_live(arena: &Arena<LogicalPlan>, id: Node, fuel: usize) -> (r: bool)
    ensures
        r == reachable_live(arena@, id, fuel as nat),
    decreases fuel,
{
    if fuel == 0 {
        return true;
    }
    if !arena.contains(id) {
        return false;
    }
    let inputs = arena.get(id).get_inputs();
    let mut i: usize = 0;
    while i < inputs.len()
        invariant
            i <= inputs@.len(),
            fuel > 0,
            slot_live(arena@, id),
            inputs@ == plan_inputs(arena@[id.0 as int]->Some_0),
            forall|j: int| 0 <= j < i ==> reachable_live(arena@, #[trigger] inputs@[j], (fuel - 1) as nat),
        decreases inputs@.len() - i,
    {
        if !all_reachable_live(arena, inputs[i], fuel - 1) {
            return false;
        }
        i = i + 1;
    }
    proof {
        assert forall|q: int|
            0 <= q < plan_inputs(arena@[id.0 as int]->Some_0).len() implies reachable_live(
            arena@,
            #[trigger] plan_inputs(arena@[id.0 as int]->Some_0)[q],
            (fuel - 1) as nat,
        ) by {
            assert(inputs@[q] == plan_inputs(arena@[id.0 as int]->Some_0)[q]);
        }
    }
    true
}

/// Optimizes the plan rooted at `lp_top` in place; the root keeps its id.
/// The rewrites of this crate run in turn (see [`passes`]): moving filters
/// below joins when `predicate_pushdown` is on, then moving slices towards
/// the sources when `slice_pushdown` is on (`streaming` makes joins block
/// slices), then, unless `eager` is on, the fixed-point loop of rules, which
/// flattens nested unions; the other switches name rewrites that this crate
/// does not hold. A failing pass fails the call. Two checks follow, in every
/// build: the output schema, names and types in order, must be kept
/// (`SchemaMismatch`), and every node reachable from the root must be held
/// by its slot (`ComputeError`). Nothing is returned on an error.
pub fn optimize(
    lp_top: Node,
    opt_state: OptState,
    lp_arena: &mut Arena<LogicalPlan>,
    expr_arena: &mut Arena<AExpr>,
) -> (r: PlanResult<Node>)
    ensures
        r is Ok ==> r == Ok::<Node, PlanError>(lp_top) && final(lp_arena).is_live(lp_top),
        r is Ok ==> schema_view_at(final(lp_arena)@, lp_top, final(lp_arena)@.len() as nat)
            == schema_view_at(old(lp_arena)@, lp_top, old(lp_arena)@.len() as nat),
        r is Ok ==> reachable_live(final(lp_arena)@, lp_top, root_fuel(final(lp_arena)@.len())),
        r == Err::<Node, PlanError>(PlanError::SchemaMismatch) ==> schema_view_at(
            final(lp_arena)@,
            lp_top,
            final(lp_arena)@.len() as nat,
        ) != schema_view_at(old(lp_arena)@, lp_top, old(lp_arena)@.len() as nat),
        r is Err ==> r == Err::<Node, PlanError>(PlanError::ComputeError) || r == Err::<
            Node,
            PlanError,
        >(PlanError::SchemaMismatch),
        !old(lp_arena).is_live(lp_top) ==> r == Err::<Node, PlanError>(PlanError::ComputeError)
            && final(lp_arena)@ == old(lp_arena)@ && final(expr_arena)@ == old(expr_arena)@,
        old(lp_arena).is_live(lp_top) ==> ({
            let (rp, ap, ep) = passes(old(lp_arena)@, old(expr_arena)@, lp_top, opt_state);
            &&& rp is Err ==> r == Err::<Node, PlanError>(PlanError::ComputeError)
            &&& r is Ok ==> rp is Ok
            &&& final(expr_arena)@ == ep
            &&& (rp is Err || opt_state.eager || settled(
                seq![OptimizationRule::FlattenUnion],
                ap,
                lp_top,
                root_fuel(ap.len()),
            )) ==> final(lp_arena)@ == ap
            &&& rp is Ok && (opt_state.eager || settled(
                seq![OptimizationRule::FlattenUnion],
                ap,
                lp_top,
                root_fuel(ap.len()),
            )) ==> (r is Ok <==> schema_view_at(ap, lp_top, ap.len() as nat) == schema_view_at(
                old(lp_arena)@,
                lp_top,
                old(lp_arena)@.len() as nat,
            ) && reachable_live(ap, lp_top, root_fuel(ap.len())))
        }),
{
    if !lp_arena.contains(lp_top) {
        return Err(PlanError::ComputeError);
    }
    let ghost a0 = lp_arena@;
    let ghost e0 = expr_arena@;
    let prev_schema = output_schema(lp_arena, lp_top, lp_arena.len());
    if opt_state.predicate_pushdown {
        let predicate_pushdown_opt = PredicatePushDown::new();
        let alp = lp_arena.take(lp_top);
        let alp = match predicate_pushdown_opt.optimize(alp, lp_arena, expr_arena) {
            Ok(x) => x,
            Err(_) => {
                return Err(PlanError::ComputeError);
            },
        };
        lp_arena.replace(lp_top, alp);
    }
    if opt_state.slice_pushdown {
        let slice_pushdown_opt = SlicePushDown::new(opt_state.streaming);
        let alp = lp_arena.take(lp_top);
        let alp = match slice_pushdown_opt.optimize(alp, lp_arena, expr_arena) {
            Ok(x) => x,
            Err(_) => {
                return Err(PlanError::ComputeError);
            },
        };
        lp_arena.replace(lp_top, alp);
    }
    let ghost ap = lp_arena@;
    proof {
        assert(passes(a0, e0, lp_top, opt_state) == (Ok::<(), PlanError>(()), ap, expr_arena@));
    }
    let mut rules: Vec<OptimizationRule> = Vec::new();
    if !opt_state.eager {
        rules.push(OptimizationRule::FlattenUnion);
        proof {
            assert(rules@ =~= seq![OptimizationRule::FlattenUnion]);
        }
        let opt = StackOptimizer {};
        if opt.optimize_loop(&rules, expr_arena, lp_arena, lp_top).is_err() {
            return Err(PlanError::ComputeError);
        }
    }
    // The rewrites must not change the output schema.
    let schema = output_schema(lp_arena, lp_top, lp_arena.len());
    let same = match (&prev_schema, &schema) {
        (Some(a), Some(b)) => same_fields(a, b),
        (None, None) => true,
        _ => false,
    };
    if !same {
        return Err(PlanError::SchemaMismatch);
    }
    // Every node that the plan reaches must be in the arena.
    let n = lp_arena.len();
    let fuel = if n < usize::MAX { n + 1 } else { n };
    if !all_reachable_live(lp_arena, lp_top, fuel) {
        return Err(PlanError::ComputeError);
    }
    Ok(lp_top)
}

impl Optimize for OptState {
    fn optimize(
        &self,
        logical_plan: Node,
        lp_arena: &mut Arena<LogicalPlan>,
        expr_arena: &mut Arena<AExpr>,
    ) -> PlanResult<Node> {
        optimize(logical_plan, *self, lp_arena, expr_arena)
    }
}

} // verus!
