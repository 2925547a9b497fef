use vstd::prelude::*;
use crate::arena::{Arena, Node};
use crate::error::{PlanError, PlanResult};
use crate::expr::{
    expr_at, literal_is_scalar, node_is_elementwise, subtree, subtree_nodes, AExpr, BooleanFunction,
    FunctionExpr, LiteralValue, StringFunction,
};
use crate::plan::{declared_schema, plan_inputs, LogicalPlan};

verus! {

/// A pending slice, carried down the plan until a node takes it.
#[derive(Debug, Clone, Copy, PartialEq, Eq, Structural)]
pub struct State {
    pub offset: i64,
    pub len: usize,
}

/// Every node of the expression tree keeps the height of its input.
pub open spec fn expr_is_elementwise(ea: Seq<Option<AExpr>>, id: Node) -> bool {
    &&& subtree(ea, id) is Some
    &&& forall|i: int|
        0 <= i < subtree(ea, id)->Some_0.len() ==> (#[trigger] expr_at(
            ea,
            subtree(ea, id)->Some_0[i],
        ) matches Some(e) && node_is_elementwise(e))
}

/// The expression tree reads a column.
pub open spec fn expr_has_column(ea: Seq<Option<AExpr>>, id: Node) -> bool {
    &&& subtree(ea, id) is Some
    &&& exists|i: int|
        0 <= i < subtree(ea, id)->Some_0.len() && (#[trigger] expr_at(
            ea,
            subtree(ea, id)->Some_0[i],
        ) matches Some(AExpr::Column(_)))
}

/// Every literal of the expression tree projects as a single value.
pub open spec fn expr_literals_scalar(ea: Seq<Option<AExpr>>, id: Node) -> bool {
    &&& subtree(ea, id) is Some
    &&& forall|i: int|
        0 <= i < subtree(ea, id)->Some_0.len() ==> (#[trigger] expr_at(
            ea,
            subtree(ea, id)->Some_0[i],
        ) matches Some(AExpr::Literal(v)) ==> literal_is_scalar(v))
}

/// The expression yields one row per input row: it is elementwise, and it
/// reads a column or all its literals are scalars.
pub open spec fn expr_keeps_height(ea: Seq<Option<AExpr>>, id: Node) -> bool {
    expr_is_elementwise(ea, id) && (expr_has_column(ea, id) || expr_literals_scalar(ea, id))
}

pub open spec fn all_keep_height(ea: Seq<Option<AExpr>>, exprs: Seq<Node>) -> bool {
    forall|i: int| 0 <= i < exprs.len() ==> #[trigger] expr_keeps_height(ea, exprs[i])
}

pub open spec fn any_has_column(ea: Seq<Option<AExpr>>, exprs: Seq<Node>) -> bool {
    exists|i: int| 0 <= i < exprs.len() && #[trigger] expr_has_column(ea, exprs[i])
}

/// What the slice pushdown does at one node.
#[derive(Debug)]
pub enum SliceStep {
    /// The node becomes `node`; its inputs are rewritten under the state in
    /// `visit` (not at all when `None`); `wrap` is a slice left above it.
    Rewrite { node: LogicalPlan, visit: Option<Option<State>>, wrap: Option<State> },
    /// A slice node drops away: its input is rewritten under `state`, and
    /// put back under a slice of `outer` when that is set.
    Descend { input: Node, state: State, outer: Option<State> },
}

/// The row limit of a scan after a slice of `len` rows from its row
/// `offset`.
pub open spec fn limit_rows(n_rows: Option<usize>, offset: int, len: usize) -> usize {
    match n_rows {
        Some(n) => if offset >= n {
            0
        } else if n - offset < len {
            (n - offset) as usize
        } else {
            len
        },
        None => len,
    }
}

/// A scan with no filter takes a slice that starts at or after its first
/// row, as a skip and a limit.
pub open spec fn scan_absorbs(predicate: Option<Node>, skip_rows: usize, s: State) -> bool {
    predicate is None && s.offset >= 0 && skip_rows + s.offset <= usize::MAX
}

pub open spec fn min_len(a: usize, b: usize) -> usize {
    if a < b { a } else { b }
}

pub open spec fn slice_opt(s: State) -> Option<(i64, usize)> {
    Some((s.offset, s.len))
}

/// Anchor the slice above the node and rewrite its inputs with no slice.
pub open spec fn restart(lp: LogicalPlan, state: Option<State>) -> SliceStep {
    SliceStep::Rewrite { node: lp, visit: Some(None), wrap: state }
}

/// Anchor the slice above the node and stop.
pub open spec fn finish(lp: LogicalPlan, state: Option<State>) -> SliceStep {
    SliceStep::Rewrite { node: lp, visit: None, wrap: state }
}

/// Carry the slice on into the inputs.
pub open spec fn carry(lp: LogicalPlan, state: Option<State>) -> SliceStep {
    SliceStep::Rewrite { node: lp, visit: Some(state), wrap: None }
}

/// Whether a slice may move below an `HStack` with these expressions.
pub open spec fn hstack_passes(ea: Seq<Option<AExpr>>, exprs: Seq<Node>, schema_len: nat) -> bool {
    all_keep_height(ea, exprs) && (schema_len > exprs.len() || any_has_column(ea, exprs))
}

/// The policy of the slice pushdown, node kind by node kind.
pub open spec fn slice_step(
    lp: LogicalPlan,
    state: Option<State>,
    streaming: bool,
    ea: Seq<Option<AExpr>>,
) -> SliceStep {
    match state {
        None => match lp {
            LogicalPlan::Slice { input, offset, len } => SliceStep::Descend {
                input,
                state: State { offset, len },
                outer: None,
            },
            LogicalPlan::Scan { .. } | LogicalPlan::Union { .. } => finish(lp, None),
            _ => restart(lp, None),
        },
        Some(s) => match lp {
            LogicalPlan::Scan { path, schema, n_rows, skip_rows, predicate } => {
                if scan_absorbs(predicate, skip_rows, s) {
                    SliceStep::Rewrite {
                        node: LogicalPlan::Scan {
                            path,
                            schema,
                            n_rows: Some(limit_rows(n_rows, s.offset as int, s.len)),
                            skip_rows: (skip_rows + s.offset) as usize,
                            predicate,
                        },
                        visit: None,
                        wrap: None,
                    }
                } else {
                    finish(lp, state)
                }
            },
            LogicalPlan::Union { inputs, slice } => {
                if slice is None {
                    SliceStep::Rewrite {
                        node: LogicalPlan::Union { inputs, slice: slice_opt(s) },
                        visit: if s.offset == 0 { Some(state) } else { None },
                        wrap: None,
                    }
                } else {
                    finish(lp, state)
                }
            },
            LogicalPlan::Join { input_left, input_right, left_on, right_on, schema, how, slice } => {
                if !streaming && slice is None {
                    SliceStep::Rewrite {
                        node: LogicalPlan::Join {
                            input_left,
                            input_right,
                            left_on,
                            right_on,
                            schema,
                            how,
                            slice: slice_opt(s),
                        },
                        visit: Some(None),
                        wrap: None,
                    }
                } else {
                    restart(lp, state)
                }
            },
            LogicalPlan::Aggregate { input, keys, aggs, schema, maintain_order, slice } => {
                if slice is None {
                    SliceStep::Rewrite {
                        node: LogicalPlan::Aggregate {
                            input,
                            keys,
                            aggs,
                            schema,
                            maintain_order,
                            slice: slice_opt(s),
                        },
                        visit: Some(None),
                        wrap: None,
                    }
                } else {
                    restart(lp, state)
                }
            },
            LogicalPlan::Distinct { input, slice } => {
                if slice is None {
                    SliceStep::Rewrite {
                        node: LogicalPlan::Distinct { input, slice: slice_opt(s) },
                        visit: Some(None),
                        wrap: None,
                    }
                } else {
                    restart(lp, state)
                }
            },
            LogicalPlan::Sort { input, by_column, args } => {
                if args.slice is None {
                    SliceStep::Rewrite {
                        node: LogicalPlan::Sort {
                            input,
                            by_column,
                            args: crate::plan::SortArguments { slice: slice_opt(s), ..args },
                        },
                        visit: Some(None),
                        wrap: None,
                    }
                } else {
                    restart(lp, state)
                }
            },
            LogicalPlan::Slice { input, offset, len } => {
                if s.offset == offset {
                    SliceStep::Descend {
                        input,
                        state: State { offset, len: min_len(len, s.len) },
                        outer: None,
                    }
                } else {
                    SliceStep::Descend { input, state: State { offset, len }, outer: Some(s) }
                }
            },
            LogicalPlan::MapFunction { function, .. } => {
                if function.spec_allow_predicate_pd() {
                    carry(lp, state)
                } else {
                    restart(lp, state)
                }
            },
            LogicalPlan::Projection { expr, .. } => {
                if all_keep_height(ea, expr@) && any_has_column(ea, expr@) {
                    carry(lp, state)
                } else {
                    restart(lp, state)
                }
            },
            LogicalPlan::HStack { exprs, schema, .. } => {
                if hstack_passes(ea, exprs@, schema@.len()) {
                    carry(lp, state)
                } else {
                    restart(lp, state)
                }
            },
            LogicalPlan::HConcat { .. } => carry(lp, state),
            LogicalPlan::Selection { .. }
            | LogicalPlan::DataFrameScan { .. }
            | LogicalPlan::Cache { .. } => restart(lp, state),
        },
    }
}

/// The height flags of one expression tree:
/// `(elementwise, has_column, literals_all_scalar)`.
fn expr_height_flags(ea: &Arena<AExpr>, id: Node) -> (r: (bool, bool, bool))
    ensures
        r.0 == expr_is_elementwise(ea@, id),
        r.1 == expr_has_column(ea@, id),
        r.2 == expr_literals_scalar(ea@, id),
{
    let nodes = match subtree_nodes(ea, id) {
        Some(v) => v,
        None => {
            return (false, false, false);
        },
    };
    let ghost ns = subtree(ea@, id)->Some_0;
    let mut elementwise = true;
    let mut has_column = false;
    let mut literals_all_scalar = true;
    let mut i: usize = 0;
    while i < nodes.len()
        invariant
            nodes@ == ns,
            subtree(ea@, id) == Some(ns),
            i <= ns.len(),
            elementwise == forall|j: int|
                0 <= j < i ==> (#[trigger] expr_at(ea@, ns[j]) matches Some(e)
                    && node_is_elementwise(e)),
            has_column == exists|j: int|
                0 <= j < i && (#[trigger] expr_at(ea@, ns[j]) matches Some(AExpr::Column(_))),
            literals_all_scalar == forall|j: int|
                0 <= j < i ==> (#[trigger] expr_at(ea@, ns[j]) matches Some(AExpr::Literal(v))
                    ==> literal_is_scalar(v)),
        decreases ns.len() - i,
    {
        let n = nodes[i];
        let ghost at = expr_at(ea@, n);
        match ea.try_get(n) {
            Some(e) => {
                assert(at == Some(*e));
                if !node_elementwise(e) {
                    elementwise = false;
                }
                match e {
                    AExpr::Column(_) => {
                        has_column = true;
                    },
                    AExpr::Literal(v) => {
                        if !projects_as_scalar(v) {
                            literals_all_scalar = false;
                        }
                    },
                    _ => {},
                }
            },
            None => {
                assert(at is None);
                elementwise = false;
            },
        }
        i = i + 1;
        proof {
            assert(expr_at(ea@, ns[i - 1]) == at);
        }
    }
    (elementwise, has_column, literals_all_scalar)
}

/// Whether one expression node, apart from its operands, keeps the height
/// of its input.
pub fn node_elementwise(e: &AExpr) -> (r: bool)
    ensures
        r == node_is_elementwise(*e),
{
    match e {
        AExpr::Function { function, .. } => match function {
            FunctionExpr::Boolean(b) => !matches!(
                b,
                BooleanFunction::IsUnique | BooleanFunction::IsDuplicated
                    | BooleanFunction::IsFirstDistinct | BooleanFunction::Any | BooleanFunction::All
            ),
            FunctionExpr::FillNull => true,
            FunctionExpr::StringExpr(f) => !matches!(
                f,
                StringFunction::Explode | StringFunction::ConcatVertical { .. }
            ),
            FunctionExpr::Opaque { elementwise, .. } => *elementwise,
        },
        AExpr::Agg(_) | AExpr::Explode(_) | AExpr::Window { .. } => false,
        _ => true,
    }
}

/// Whether a literal projects to a single value whatever the input height.
pub fn projects_as_scalar(v: &LiteralValue) -> (r: bool)
    ensures
        r == literal_is_scalar(*v),
{
    match v {
        LiteralValue::Series(s) => s.len() == 1,
        LiteralValue::Range { low, high } => (*high as i128) - (*low as i128) == 1,
        _ => true,
    }
}

/// Whether a slice may move past a projection of these expressions:
/// `(all_elementwise, all_elementwise_and_any_expr_has_column)`. A
/// projection whose expressions all keep the input height passes the first
/// test; the second also asks that one of them reads a column, which pins
/// the output height to the input height.
pub fn can_pushdown_slice_past_projections(exprs: &Vec<Node>, arena: &Arena<AExpr>) -> (r: (
    bool,
    bool,
))
    ensures
        r.0 == all_keep_height(arena@, exprs@),
        r.1 == (all_keep_height(arena@, exprs@) && any_has_column(arena@, exprs@)),
{
    let mut any_column = false;
    let mut i: usize = 0;
    while i < exprs.len()
        invariant
            i <= exprs@.len(),
            forall|j: int| 0 <= j < i ==> #[trigger] expr_keeps_height(arena@, exprs@[j]),
            any_column == exists|j: int|
                0 <= j < i && #[trigger] expr_has_column(arena@, exprs@[j]),
        decreases exprs@.len() - i,
    {
        let (is_elementwise, has_column, literals_all_scalar) = expr_height_flags(arena, exprs[i]);
        // With no column, every literal must be a scalar.
        if !is_elementwise || !(has_column || literals_all_scalar) {
            assert(!expr_keeps_height(arena@, exprs@[i as int]));
            return (false, false);
        }
        if has_column {
            any_column = true;
        }
        i = i + 1;
    }
    (true, any_column)
}

/// What a rewrite yields at the node itself, given the step taken there.
/// A slice left above the node stands on a fresh slot that holds the node.
pub open spec fn step_outcome(step: SliceStep, arena: Seq<Option<LogicalPlan>>, out: LogicalPlan) -> bool {
    match step {
        SliceStep::Rewrite { node, wrap, .. } => match wrap {
            None => out == node,
            Some(w) => out matches LogicalPlan::Slice { input, offset, len } && offset == w.offset
                && len == w.len && input.0 < arena.len() && arena[input.0 as int] == Some(node),
        },
        SliceStep::Descend { input, outer, .. } => match outer {
            Some(o) => out == LogicalPlan::Slice { input, offset: o.offset, len: o.len } && input.0
                < arena.len() && arena[input.0 as int] is Some,
            None => true,
        },
    }
}

/// The slot holds a node.
pub open spec fn slot_live(a: Seq<Option<LogicalPlan>>, id: Node) -> bool {
    id.0 < a.len() && a[id.0 as int] is Some
}

/// Leaving the slice, if any, above the node: the node goes into the free
/// slot `home` if one is given, else into a fresh slot at the end.
pub open spec fn finished(
    a: Seq<Option<LogicalPlan>>,
    lp: LogicalPlan,
    state: Option<State>,
    home: Option<Node>,
) -> (PlanResult<LogicalPlan>, Seq<Option<LogicalPlan>>) {
    match state {
        None => (Ok(lp), a),
        Some(s) => match home {
            Some(h) => (
                Ok(LogicalPlan::Slice { input: h, offset: s.offset, len: s.len }),
                a.update(h.0 as int, Some(lp)),
            ),
            None => (
                Ok(LogicalPlan::Slice { input: Node(a.len() as usize), offset: s.offset, len: s.len }),
                a.push(Some(lp)),
            ),
        },
    }
}

/// The rewrite of the node `lp`, taken out of its slot, under a pending
/// slice, `fuel` levels deep at most: the node it becomes and the arena
/// after it. Each input named by the step is rewritten in its own slot under
/// the step's state, in order; a missing input is an error.
pub open spec fn pushed_down(
    a: Seq<Option<LogicalPlan>>,
    lp: LogicalPlan,
    state: Option<State>,
    streaming: bool,
    ea: Seq<Option<AExpr>>,
    fuel: nat,
    home: Option<Node>,
) -> (PlanResult<LogicalPlan>, Seq<Option<LogicalPlan>>)
    decreases fuel, 2int, 0int,
{
    if fuel == 0 {
        finished(a, lp, state, home)
    } else {
        match slice_step(lp, state, streaming, ea) {
            SliceStep::Rewrite { node, visit, wrap } => match visit {
                None => finished(a, node, wrap, home),
                Some(inner) => {
                    let (r, a1) = inputs_pushed_down(a, plan_inputs(node), inner, streaming, ea, fuel);
                    if r is Err {
                        (Err(PlanError::ComputeError), a1)
                    } else {
                        finished(a1, node, wrap, home)
                    }
                },
            },
            SliceStep::Descend { input, state: st, outer } => {
                if !slot_live(a, input) {
                    (Err(PlanError::ComputeError), a)
                } else {
                    let (r, a1) = pushed_down(
                        a.update(input.0 as int, None),
                        a[input.0 as int]->Some_0,
                        Some(st),
                        streaming,
                        ea,
                        (fuel - 1) as nat,
                        if outer is None { Some(input) } else { None },
                    );
                    match r {
                        Err(e) => (Err(e), a1),
                        Ok(x) => match outer {
                            None => (Ok(x), a1),
                            Some(o) => (
                                Ok(LogicalPlan::Slice { input, offset: o.offset, len: o.len }),
                                a1.update(input.0 as int, Some(x)),
                            ),
                        },
                    }
                }
            },
        }
    }
}

/// Rewrites the inputs `ids` in turn, each in its own slot, under `state`.
pub open spec fn inputs_pushed_down(
    a: Seq<Option<LogicalPlan>>,
    ids: Seq<Node>,
    state: Option<State>,
    streaming: bool,
    ea: Seq<Option<AExpr>>,
    fuel: nat,
) -> (PlanResult<()>, Seq<Option<LogicalPlan>>)
    decreases fuel, 1int, ids.len(),
{
    if ids.len() == 0 || fuel == 0 {
        (Ok(()), a)
    } else {
        let (r, a1) = inputs_pushed_down(a, ids.drop_last(), state, streaming, ea, fuel);
        let id = ids.last();
        if r is Err {
            (r, a1)
        } else if !slot_live(a1, id) {
            (Err(PlanError::ComputeError), a1)
        } else {
            let (r2, a2) = pushed_down(
                a1.update(id.0 as int, None),
                a1[id.0 as int]->Some_0,
                state,
                streaming,
                ea,
                (fuel - 1) as nat,
                None,
            );
            match r2 {
                Err(e) => (Err(e), a2),
                Ok(x) => (Ok(()), a2.update(id.0 as int, Some(x))),
            }
        }
    }
}

proof fn lemma_inputs_fail(
    a: Seq<Option<LogicalPlan>>,
    ids: Seq<Node>,
    state: Option<State>,
    streaming: bool,
    ea: Seq<Option<AExpr>>,
    fuel: nat,
    k: int,
)
    requires
        0 < k <= ids.len(),
        fuel > 0,
        inputs_pushed_down(a, ids.subrange(0, k), state, streaming, ea, fuel).0 is Err,
    ensures
        inputs_pushed_down(a, ids, state, streaming, ea, fuel) == inputs_pushed_down(
            a,
            ids.subrange(0, k),
            state,
            streaming,
            ea,
            fuel,
        ),
    decreases ids.len() - k,
{
    if k < ids.len() {
        let next = ids.subrange(0, k + 1);
        assert(next.drop_last() =~= ids.subrange(0, k));
        lemma_inputs_fail(a, ids, state, streaming, ea, fuel, k + 1);
    } else {
        assert(ids.subrange(0, k) =~= ids);
    }
}

/// The rewrite fails only with `ComputeError`, on a missing input.
pub proof fn lemma_pushed_down_error(
    a: Seq<Option<LogicalPlan>>,
    lp: LogicalPlan,
    state: Option<State>,
    streaming: bool,
    ea: Seq<Option<AExpr>>,
    fuel: nat,
    home: Option<Node>,
)
    ensures
        pushed_down(a, lp, state, streaming, ea, fuel, home).0 is Err ==> pushed_down(
            a,
            lp,
            state,
            streaming,
            ea,
            fuel,
            home,
        ).0 == Err::<LogicalPlan, PlanError>(PlanError::ComputeError),
    decreases fuel, 2int, 0int,
{
    if fuel > 0 {
        match slice_step(lp, state, streaming, ea) {
            SliceStep::Descend { input, state: st, outer } => {
                if slot_live(a, input) {
                    lemma_pushed_down_error(
                        a.update(input.0 as int, None),
                        a[input.0 as int]->Some_0,
                        Some(st),
                        streaming,
                        ea,
                        (fuel - 1) as nat,
                        if outer is None { Some(input) } else { None },
                    );
                }
            },
            _ => {},
        }
    }
}

/// The fuel that a run from the root takes: one more than the number of
/// slots.
pub open spec fn root_fuel(n: nat) -> nat {
    if n < usize::MAX { n + 1 } else { n }
}

/// Moves slices towards the sources of a plan.
pub struct SlicePushDown {
    /// Streaming engines slice joins themselves: joins then block the slice.
    pub streaming: bool,
}

impl SlicePushDown {
    pub fn new(streaming: bool) -> (r: Self)
        ensures
            r.streaming == streaming,
    {
        SlicePushDown { streaming }
    }

    /// The step that the policy takes at a node.
    fn slice_step_of(&self, lp: LogicalPlan, state: Option<State>, ea: &Arena<AExpr>) -> (r:
        SliceStep)
        ensures
            r == slice_step(lp, state, self.streaming, ea@),
    {
        match state {
            None => match lp {
                LogicalPlan::Slice { input, offset, len } => SliceStep::Descend {
                    input,
                    state: State { offset, len },
                    outer: None,
                },
                LogicalPlan::Scan { .. } | LogicalPlan::Union { .. } => SliceStep::Rewrite {
                    node: lp,
                    visit: None,
                    wrap: None,
                },
                _ => SliceStep::Rewrite { node: lp, visit: Some(None), wrap: None },
            },
            Some(s) => match lp {
                LogicalPlan::Scan { path, schema, n_rows, skip_rows, predicate } => {
                    if predicate.is_none() && s.offset >= 0 && (s.offset as u64) <= (usize::MAX
                        - skip_rows) as u64 {
                        let offset = s.offset as usize;
                        let limit = match n_rows {
                            Some(n) => if offset >= n {
                                0
                            } else if n - offset < s.len {
                                n - offset
                            } else {
                                s.len
                            },
                            None => s.len,
                        };
                        SliceStep::Rewrite {
                            node: LogicalPlan::Scan {
                                path,
                                schema,
                                n_rows: Some(limit),
                                skip_rows: skip_rows + offset,
                                predicate,
                            },
                            visit: None,
                            wrap: None,
                        }
                    } else {
                        SliceStep::Rewrite {
                            node: LogicalPlan::Scan { path, schema, n_rows, skip_rows, predicate },
                            visit: None,
                            wrap: state,
                        }
                    }
                },
                LogicalPlan::Union { inputs, slice } => {
                    if slice.is_none() {
                        SliceStep::Rewrite {
                            node: LogicalPlan::Union { inputs, slice: Some((s.offset, s.len)) },
                            visit: if s.offset == 0 { Some(state) } else { None },
                            wrap: None,
                        }
                    } else {
                        SliceStep::Rewrite {
                            node: LogicalPlan::Union { inputs, slice },
                            visit: None,
                            wrap: state,
                        }
                    }
                },
                LogicalPlan::Join {
                    input_left,
                    input_right,
                    left_on,
                    right_on,
                    schema,
                    how,
                    slice,
                } => {
                    let anchor = !self.streaming && slice.is_none();
                    SliceStep::Rewrite {
                        node: LogicalPlan::Join {
                            input_left,
                            input_right,
                            left_on,
                            right_on,
                            schema,
                            how,
                            slice: if anchor { Some((s.offset, s.len)) } else { slice },
                        },
                        visit: Some(None),
                        wrap: if anchor { None } else { state },
                    }
                },
                LogicalPlan::Aggregate { input, keys, aggs, schema, maintain_order, slice } => {
                    let anchor = slice.is_none();
                    SliceStep::Rewrite {
                        node: LogicalPlan::Aggregate {
                            input,
                            keys,
                            aggs,
                            schema,
                            maintain_order,
                            slice: if anchor { Some((s.offset, s.len)) } else { slice },
                        },
                        visit: Some(None),
                        wrap: if anchor { None } else { state },
                    }
                },
                LogicalPlan::Distinct { input, slice } => {
                    let anchor = slice.is_none();
                    SliceStep::Rewrite {
                        node: LogicalPlan::Distinct {
                            input,
                            slice: if anchor { Some((s.offset, s.len)) } else { slice },
                        },
                        visit: Some(None),
                        wrap: if anchor { None } else { state },
                    }
                },
                LogicalPlan::Sort { input, by_column, args } => {
                    let anchor = args.slice.is_none();
                    let mut args = args;
                    if anchor {
                        args.slice = Some((s.offset, s.len));
                    }
                    SliceStep::Rewrite {
                        node: LogicalPlan::Sort { input, by_column, args },
                        visit: Some(None),
                        wrap: if anchor { None } else { state },
                    }
                },
                LogicalPlan::Slice { input, offset, len } => {
                    if s.offset == offset {
                        SliceStep::Descend {
                            input,
                            state: State { offset, len: if len < s.len { len } else { s.len } },
                            outer: None,
                        }
                    } else {
                        SliceStep::Descend { input, state: State { offset, len }, outer: Some(s) }
                    }
                },
                LogicalPlan::MapFunction { input, function, schema } => {
                    let pass = function.allow_predicate_pd();
                    SliceStep::Rewrite {
                        node: LogicalPlan::MapFunction { input, function, schema },
                        visit: if pass { Some(state) } else { Some(None) },
                        wrap: if pass { None } else { state },
                    }
                },
                LogicalPlan::Projection { input, expr, schema } => {
                    let pass = can_pushdown_slice_past_projections(&expr, ea).1;
                    SliceStep::Rewrite {
                        node: LogicalPlan::Projection { input, expr, schema },
                        visit: if pass { Some(state) } else { Some(None) },
                        wrap: if pass { None } else { state },
                    }
                },
                LogicalPlan::HStack { input, exprs, schema } => {
                    let check = can_pushdown_slice_past_projections(&exprs, ea);
                    // A wider schema keeps input columns, which pin the height.
                    let pass = (schema.len() > exprs.len() && check.0) || check.1;
                    SliceStep::Rewrite {
                        node: LogicalPlan::HStack { input, exprs, schema },
                        visit: if pass { Some(state) } else { Some(None) },
                        wrap: if pass { None } else { state },
                    }
                },
                LogicalPlan::HConcat { .. } => SliceStep::Rewrite {
                    node: lp,
                    visit: Some(state),
                    wrap: None,
                },
                LogicalPlan::Selection { .. }
                | LogicalPlan::DataFrameScan { .. }
                | LogicalPlan::Cache { .. } => SliceStep::Rewrite {
                    node: lp,
                    visit: Some(None),
                    wrap: state,
                },
            },
        }
    }

    /// Leaves the slice, if any, above the node: the node moves under a new
    /// slice node, into the free slot `home` if one is given, else into a
    /// fresh one.
    fn no_pushdown_finish_opt(
        &self,
        lp: LogicalPlan,
        state: Option<State>,
        lp_arena: &mut Arena<LogicalPlan>,
        home: Option<Node>,
    ) -> (r: LogicalPlan)
        requires
            home matches Some(h) ==> h.0 < old(lp_arena)@.len(),
        ensures
            final(lp_arena)@.len() >= old(lp_arena)@.len(),
            (Ok::<LogicalPlan, PlanError>(r), final(lp_arena)@) == finished(old(lp_arena)@, lp, state, home),
    {
        match state {
            Some(state) => {
                let input = match home {
                    Some(h) => {
                        lp_arena.replace(h, lp);
                        h
                    },
                    None => lp_arena.add(lp),
                };
                LogicalPlan::Slice { input, offset: state.offset, len: state.len }
            },
            None => lp,
        }
    }

    /// Rewrites each input of the node in place, in order, under the given
    /// state.
    fn pushdown_inputs(
        &self,
        lp: &LogicalPlan,
        state: Option<State>,
        lp_arena: &mut Arena<LogicalPlan>,
        expr_arena: &Arena<AExpr>,
        fuel: usize,
    ) -> (r: PlanResult<()>)
        requires
            fuel > 0,
        ensures
            final(lp_arena)@.len() >= old(lp_arena)@.len(),
            (r, final(lp_arena)@) == inputs_pushed_down(
                old(lp_arena)@,
                plan_inputs(*lp),
                state,
                self.streaming,
                expr_arena@,
                fuel as nat,
            ),
        decreases fuel, 0int,
    {
        let ghost a0 = lp_arena@;
        let inputs = lp.get_inputs();
        let mut i: usize = 0;
        proof {
            assert(inputs@.subrange(0, 0).len() == 0);
        }
        while i < inputs.len()
            invariant
                i <= inputs@.len(),
                fuel > 0,
                inputs@ == plan_inputs(*lp),
                lp_arena@.len() >= a0.len(),
                a0 == old(lp_arena)@,
                inputs_pushed_down(a0, inputs@.subrange(0, i as int), state, self.streaming, expr_arena@, fuel as nat)
                    == (Ok::<(), PlanError>(()), lp_arena@),
            decreases inputs@.len() - i,
        {
            let node = inputs[i];
            let ghost pre = inputs@.subrange(0, i as int + 1);
            proof {
                assert(pre.drop_last() =~= inputs@.subrange(0, i as int));
                assert(pre.last() == node);
            }
            if !lp_arena.contains(node) {
                proof {
                    lemma_inputs_fail(a0, inputs@, state, self.streaming, expr_arena@, fuel as nat, i as int + 1);
                }
                return Err(PlanError::ComputeError);
            }
            let alp = lp_arena.take(node);
            match self.pushdown(alp, state, lp_arena, expr_arena, fuel - 1, None) {
                Ok(alp) => {
                    lp_arena.replace(node, alp);
                },
                Err(e) => {
                    proof {
                        lemma_inputs_fail(a0, inputs@, state, self.streaming, expr_arena@, fuel as nat, i as int + 1);
                    }
                    return Err(e);
                },
            }
            i = i + 1;
        }
        proof {
            assert(inputs@.subrange(0, inputs@.len() as int) =~= inputs@);
        }
        Ok(())
    }

    /// The slice stays above the node, and optimization starts afresh, with
    /// no slice, in its inputs.
    fn no_pushdown_restart_opt(
        &self,
        lp: LogicalPlan,
        state: Option<State>,
        lp_arena: &mut Arena<LogicalPlan>,
        expr_arena: &Arena<AExpr>,
        fuel: usize,
        home: Option<Node>,
    ) -> (r: PlanResult<LogicalPlan>)
        requires
            fuel > 0,
            home matches Some(h) ==> h.0 < old(lp_arena)@.len(),
        ensures
            final(lp_arena)@.len() >= old(lp_arena)@.len(),
            (r, final(lp_arena)@) == ({
                let (r1, a1) = inputs_pushed_down(
                    old(lp_arena)@,
                    plan_inputs(lp),
                    None,
                    self.streaming,
                    expr_arena@,
                    fuel as nat,
                );
                if r1 is Err {
                    (Err(PlanError::ComputeError), a1)
                } else {
                    finished(a1, lp, state, home)
                }
            }),
        decreases fuel, 1int,
    {
        match self.pushdown_inputs(&lp, None, lp_arena, expr_arena, fuel) {
            Ok(()) => Ok(self.no_pushdown_finish_opt(lp, state, lp_arena, home)),
            Err(_) => Err(PlanError::ComputeError),
        }
    }

    /// The slice moves on into the inputs of the node.
    fn pushdown_and_continue(
        &self,
        lp: LogicalPlan,
        state: Option<State>,
        lp_arena: &mut Arena<LogicalPlan>,
        expr_arena: &Arena<AExpr>,
        fuel: usize,
    ) -> (r: PlanResult<LogicalPlan>)
        requires
            fuel > 0,
        ensures
            final(lp_arena)@.len() >= old(lp_arena)@.len(),
            (r, final(lp_arena)@) == ({
                let (r1, a1) = inputs_pushed_down(
                    old(lp_arena)@,
                    plan_inputs(lp),
                    state,
                    self.streaming,
                    expr_arena@,
                    fuel as nat,
                );
                if r1 is Err {
                    (Err(PlanError::ComputeError), a1)
                } else {
                    (Ok(lp), a1)
                }
            }),
        decreases fuel, 1int,
    {
        match self.pushdown_inputs(&lp, state, lp_arena, expr_arena, fuel) {
            Ok(()) => Ok(lp),
            Err(_) => Err(PlanError::ComputeError),
        }
    }

    /// Rewrites the node `lp`, taken out of its slot, under a pending slice,
    /// as [`pushed_down`] says: inputs are rewritten in place, `fuel` levels
    /// deep at most, below which the slice stays where it is; a missing
    /// input is an error; a node left under a slice goes to the free slot
    /// `home` if one is given.
    fn pushdown(
        &self,
        lp: LogicalPlan,
        state: Option<State>,
        lp_arena: &mut Arena<LogicalPlan>,
        expr_arena: &Arena<AExpr>,
        fuel: usize,
        home: Option<Node>,
    ) -> (r: PlanResult<LogicalPlan>)
        requires
            home matches Some(h) ==> h.0 < old(lp_arena)@.len(),
        ensures
            final(lp_arena)@.len() >= old(lp_arena)@.len(),
            (r, final(lp_arena)@) == pushed_down(
                old(lp_arena)@,
                lp,
                state,
                self.streaming,
                expr_arena@,
                fuel as nat,
                home,
            ),
        decreases fuel, 2int,
    {
        if fuel == 0 {
            return Ok(self.no_pushdown_finish_opt(lp, state, lp_arena, home));
        }
        let step = self.slice_step_of(lp, state, expr_arena);
        match step {
            SliceStep::Rewrite { node, visit, wrap } => match visit {
                None => Ok(self.no_pushdown_finish_opt(node, wrap, lp_arena, home)),
                Some(inner) => {
                    if inner.is_none() {
                        self.no_pushdown_restart_opt(node, wrap, lp_arena, expr_arena, fuel, home)
                    } else {
                        // A slice is carried on only where none is left above.
                        assert(wrap is None);
                        self.pushdown_and_continue(node, inner, lp_arena, expr_arena, fuel)
                    }
                },
            },
            SliceStep::Descend { input, state, outer } => {
                if !lp_arena.contains(input) {
                    return Err(PlanError::ComputeError);
                }
                let alp = lp_arena.take(input);
                // Without an outer slice the input's slot is free once the
                // slice node is gone.
                let free = if outer.is_none() { Some(input) } else { None };
                let alp = match self.pushdown(alp, Some(state), lp_arena, expr_arena, fuel - 1, free) {
                    Ok(x) => x,
                    Err(e) => {
                        return Err(e);
                    },
                };
                match outer {
                    None => Ok(alp),
                    Some(outer) => {
                        lp_arena.replace(input, alp);
                        Ok(LogicalPlan::Slice { input, offset: outer.offset, len: outer.len })
                    },
                }
            },
        }
    }

    /// Runs the pushdown from the root of a plan, with no pending slice.
    pub fn optimize(
        &self,
        logical_plan: LogicalPlan,
        lp_arena: &mut Arena<LogicalPlan>,
        expr_arena: &Arena<AExpr>,
    ) -> (r: PlanResult<LogicalPlan>)
        ensures
            final(lp_arena)@.len() >= old(lp_arena)@.len(),
            (r, final(lp_arena)@) == pushed_down(
                old(lp_arena)@,
                logical_plan,
                None,
                self.streaming,
                expr_arena@,
                root_fuel(old(lp_arena)@.len()),
                None,
            ),
    {
        // A plan has no path longer than its number of nodes.
        let n = lp_arena.len();
        let fuel = if n < usize::MAX { n + 1 } else { n };
        self.pushdown(logical_plan, None, lp_arena, expr_arena, fuel, None)
    }
}

/// Two slices with one offset merge into one of the shorter length: under
/// the outer slice `(o, l2)` the inner `Slice(p, o, l1)` takes the step that
/// `Slice(p, o, min(l1, l2))` takes with no pending slice, namely rewriting
/// `p` under `(o, min(l1, l2))`. With another offset `o1` pending, the inner
/// slice is carried into `p` and the pending one stays above it.
pub proof fn lemma_slice_merge(
    p: Node,
    o: i64,
    o1: i64,
    l1: usize,
    l2: usize,
    streaming: bool,
    ea: Seq<Option<AExpr>>,
)
    ensures
        slice_step(LogicalPlan::Slice { input: p, offset: o, len: l1 }, Some(State { offset: o, len: l2 }), streaming, ea)
            == slice_step(LogicalPlan::Slice { input: p, offset: o, len: min_len(l1, l2) }, None, streaming, ea),
        slice_step(LogicalPlan::Slice { input: p, offset: o, len: min_len(l1, l2) }, None, streaming, ea)
            == (SliceStep::Descend { input: p, state: State { offset: o, len: min_len(l1, l2) }, outer: None }),
        o1 != o ==> slice_step(LogicalPlan::Slice { input: p, offset: o, len: l1 }, Some(State { offset: o1, len: l2 }), streaming, ea)
            == (SliceStep::Descend { input: p, state: State { offset: o, len: l1 }, outer: Some(State { offset: o1, len: l2 }) }),
{
}

/// An aggregation with no slice of its own takes a pending slice as its
/// slice option, and its input is rewritten with no slice.
pub proof fn lemma_aggregate_anchoring(
    input: Node,
    keys: Vec<Node>,
    aggs: Vec<Node>,
    schema: Vec<crate::dtype::Field>,
    maintain_order: bool,
    s: State,
    streaming: bool,
    ea: Seq<Option<AExpr>>,
)
    ensures
        slice_step(
            LogicalPlan::Aggregate { input, keys, aggs, schema, maintain_order, slice: None },
            Some(s),
            streaming,
            ea,
        ) == (SliceStep::Rewrite {
            node: LogicalPlan::Aggregate {
                input,
                keys,
                aggs,
                schema,
                maintain_order,
                slice: Some((s.offset, s.len)),
            },
            visit: Some(None),
            wrap: None,
        }),
{
}

/// Both nodes are of one kind.
pub open spec fn same_kind(a: LogicalPlan, b: LogicalPlan) -> bool {
    match (a, b) {
        (LogicalPlan::Scan { .. }, LogicalPlan::Scan { .. }) => true,
        (LogicalPlan::DataFrameScan { .. }, LogicalPlan::DataFrameScan { .. }) => true,
        (LogicalPlan::Selection { .. }, LogicalPlan::Selection { .. }) => true,
        (LogicalPlan::Projection { .. }, LogicalPlan::Projection { .. }) => true,
        (LogicalPlan::HStack { .. }, LogicalPlan::HStack { .. }) => true,
        (LogicalPlan::Aggregate { .. }, LogicalPlan::Aggregate { .. }) => true,
        (LogicalPlan::Join { .. }, LogicalPlan::Join { .. }) => true,
        (LogicalPlan::Sort { .. }, LogicalPlan::Sort { .. }) => true,
        (LogicalPlan::Slice { .. }, LogicalPlan::Slice { .. }) => true,
        (LogicalPlan::Distinct { .. }, LogicalPlan::Distinct { .. }) => true,
        (LogicalPlan::Union { .. }, LogicalPlan::Union { .. }) => true,
        (LogicalPlan::HConcat { .. }, LogicalPlan::HConcat { .. }) => true,
        (LogicalPlan::MapFunction { .. }, LogicalPlan::MapFunction { .. }) => true,
        (LogicalPlan::Cache { .. }, LogicalPlan::Cache { .. }) => true,
        _ => false,
    }
}

/// The rewrite keeps every node's kind, inputs and declared schema; the
/// only node it removes is a slice node, which declares no schema of its
/// own, and the only node it adds is a slice above a node, which takes that
/// node's schema. At each node, then, the output schema stays as it was.
pub proof fn lemma_step_keeps_schema(
    lp: LogicalPlan,
    state: Option<State>,
    streaming: bool,
    ea: Seq<Option<AExpr>>,
)
    ensures
        slice_step(lp, state, streaming, ea) matches SliceStep::Rewrite { node, .. } ==> {
            &&& same_kind(node, lp)
            &&& declared_schema(node) == declared_schema(lp)
            &&& plan_inputs(node) == plan_inputs(lp)
        },
        slice_step(lp, state, streaming, ea) matches SliceStep::Descend { input, .. } ==> {
            &&& lp is Slice
            &&& declared_schema(lp) is None
            &&& plan_inputs(lp) == seq![input]
        },
        declared_schema(LogicalPlan::Slice { input: Node(0), offset: 0, len: 0 }) is None,
{
}

/// With no pending slice the rewrite changes no node but slice nodes, and
/// leaves no slice above any: a node that the rewrite has produced is left
/// as it is by a second run.
pub proof fn lemma_no_slice_no_change(lp: LogicalPlan, streaming: bool, ea: Seq<Option<AExpr>>)
    ensures
        !(lp is Slice) ==> (slice_step(lp, None, streaming, ea) matches SliceStep::Rewrite {
            node,
            wrap,
            ..
        } && node == lp && wrap is None),
{
}

/// A node that the rewrite produced is left as it is by a second run with
/// no pending slice, and no slice is left above it then. A slice that the
/// rewrite leaves above a node is the pending one, over the node as it was;
/// in a second run, the slice node over its slot `at` carries that slice
/// down to the node again, which then takes the same step.
pub proof fn lemma_rewrite_is_stable(
    lp: LogicalPlan,
    at: Node,
    state: Option<State>,
    streaming: bool,
    ea: Seq<Option<AExpr>>,
)
    ensures
        slice_step(lp, state, streaming, ea) matches SliceStep::Rewrite { node, .. } ==> (slice_step(
            node,
            None,
            streaming,
            ea,
        ) matches SliceStep::Rewrite { node: again, wrap, .. } && again == node && wrap is None),
        slice_step(lp, state, streaming, ea) matches SliceStep::Rewrite { node, wrap: Some(w), .. }
            ==> node == lp && state == Some(w) && slice_step(
            LogicalPlan::Slice { input: at, offset: w.offset, len: w.len },
            None,
            streaming,
            ea,
        ) == (SliceStep::Descend { input: at, state: w, outer: None }),
{
    lemma_step_keeps_schema(lp, state, streaming, ea);
    if let SliceStep::Rewrite { node, .. } = slice_step(lp, state, streaming, ea) {
        lemma_no_slice_no_change(node, streaming, ea);
    }
}

/// The merge law for whole rewrites: `Slice(Slice(p, o, l1))` under a
/// pending `(o, l2)` yields what `Slice(p, o, min(l1, l2))` yields with no
/// pending slice. Under a pending slice of another offset `o1`, the result
/// is that slice over the input's own slot, which then holds `p` rewritten
/// under the inner slice.
pub proof fn lemma_slice_merge_result(
    a: Seq<Option<LogicalPlan>>,
    i: Node,
    o: i64,
    o1: i64,
    l1: usize,
    l2: usize,
    streaming: bool,
    ea: Seq<Option<AExpr>>,
    fuel: nat,
    home: Option<Node>,
)
    requires
        fuel > 0,
    ensures
        pushed_down(a, LogicalPlan::Slice { input: i, offset: o, len: l1 }, Some(State { offset: o, len: l2 }), streaming, ea, fuel, home)
            == pushed_down(a, LogicalPlan::Slice { input: i, offset: o, len: min_len(l1, l2) }, None, streaming, ea, fuel, home),
        o1 != o && slot_live(a, i) ==> ({
            let inner = pushed_down(
                a.update(i.0 as int, None),
                a[i.0 as int]->Some_0,
                Some(State { offset: o, len: l1 }),
                streaming,
                ea,
                (fuel - 1) as nat,
                None,
            );
            let outer = pushed_down(
                a,
                LogicalPlan::Slice { input: i, offset: o, len: l1 },
                Some(State { offset: o1, len: l2 }),
                streaming,
                ea,
                fuel,
                home,
            );
            inner.0 matches Ok(x) ==> outer == (
                Ok::<LogicalPlan, PlanError>(LogicalPlan::Slice { input: i, offset: o1, len: l2 }),
                inner.1.update(i.0 as int, Some(x)),
            )
        }),
{
}

/// The worked example of an elementwise projection: a slice from row 0
/// over a projection whose expressions keep the height and read a column,
/// over a scan with no filter, becomes the projection, and the scan takes
/// the slice as its row limit.
pub proof fn lemma_projection_example(
    a: Seq<Option<LogicalPlan>>,
    p: Node,
    sc: Node,
    len: usize,
    streaming: bool,
    ea: Seq<Option<AExpr>>,
    fuel: nat,
    home: Option<Node>,
)
    requires
        fuel >= 3,
        p != sc,
        slot_live(a, p),
        slot_live(a, sc),
        a[p.0 as int]->Some_0 matches LogicalPlan::Projection { input, expr, .. } && input == sc
            && all_keep_height(ea, expr@) && any_has_column(ea, expr@),
        a[sc.0 as int]->Some_0 matches LogicalPlan::Scan { predicate: None, .. },
    ensures
        ({
            let (r, after) = pushed_down(
                a,
                LogicalPlan::Slice { input: p, offset: 0, len },
                None,
                streaming,
                ea,
                fuel,
                home,
            );
            &&& r == Ok::<LogicalPlan, PlanError>(a[p.0 as int]->Some_0)
            &&& after[sc.0 as int] matches Some(LogicalPlan::Scan { path, schema, n_rows, skip_rows, predicate })
            &&& a[sc.0 as int]->Some_0 matches LogicalPlan::Scan { path: p0, schema: s0, n_rows: n0, skip_rows: k0, predicate: q0 }
            &&& path == p0 && schema == s0 && predicate == q0 && skip_rows == k0 && n_rows == Some(
                limit_rows(n0, 0, len),
            )
        }),
{
    let st = State { offset: 0, len };
    let a1 = a.update(p.0 as int, None);
    let proj = a[p.0 as int]->Some_0;
    assert(slice_step(proj, Some(st), streaming, ea) == carry(proj, Some(st)));
    assert(plan_inputs(proj) == seq![sc]);
    assert(seq![sc].drop_last() =~= Seq::<Node>::empty());
    let scan = a1[sc.0 as int]->Some_0;
    let a2 = a1.update(sc.0 as int, None);
    let inner = pushed_down(a2, scan, Some(st), streaming, ea, (fuel - 2) as nat, None);
    assert(inputs_pushed_down(a1, seq![sc].drop_last(), Some(st), streaming, ea, (fuel - 1) as nat) == (Ok::<(), PlanError>(()), a1));
    if let LogicalPlan::Scan { path, schema, n_rows, skip_rows, predicate } = scan {
        let scan2 = LogicalPlan::Scan {
            path,
            schema,
            n_rows: Some(limit_rows(n_rows, 0, len)),
            skip_rows,
            predicate,
        };
        assert(slice_step(scan, Some(st), streaming, ea) == (SliceStep::Rewrite {
            node: scan2,
            visit: None,
            wrap: None,
        }));
        assert(inner == (Ok::<LogicalPlan, PlanError>(scan2), a2));
        let a3 = a2.update(sc.0 as int, Some(scan2));
        assert(inputs_pushed_down(a1, seq![sc], Some(st), streaming, ea, (fuel - 1) as nat) == (
            Ok::<(), PlanError>(()),
            a3,
        ));
        assert(pushed_down(a1, proj, Some(st), streaming, ea, (fuel - 1) as nat, Some(p)) == (
            Ok::<LogicalPlan, PlanError>(proj),
            a3,
        ));
        assert(a3.len() == a.len());
        assert(a3[sc.0 as int] == Some(scan2));
    }
}

/// An aggregation with no slice of its own, under a pending slice, takes
/// the slice as its option while its input is rewritten with no slice.
pub proof fn lemma_aggregate_anchoring_result(
    a: Seq<Option<LogicalPlan>>,
    input: Node,
    keys: Vec<Node>,
    aggs: Vec<Node>,
    schema: Vec<crate::dtype::Field>,
    maintain_order: bool,
    s: State,
    streaming: bool,
    ea: Seq<Option<AExpr>>,
    fuel: nat,
    home: Option<Node>,
)
    requires
        fuel > 0,
    ensures
        ({
            let agg = LogicalPlan::Aggregate { input, keys, aggs, schema, maintain_order, slice: None };
            let (ri, ai) = inputs_pushed_down(a, seq![input], None, streaming, ea, fuel);
            pushed_down(a, agg, Some(s), streaming, ea, fuel, home) == if ri is Err {
                (Err::<LogicalPlan, PlanError>(PlanError::ComputeError), ai)
            } else {
                (
                    Ok(LogicalPlan::Aggregate {
                        input,
                        keys,
                        aggs,
                        schema,
                        maintain_order,
                        slice: Some((s.offset, s.len)),
                    }),
                    ai,
                )
            }
        }),
{
}

/// The worked example of a blocked projection: where some expression does
/// not keep the height, or none reads a column (a non-scalar literal such as
/// `c = [1, 2, 3]`), a slice from row 0 stays above the projection, which
/// keeps its slot while its input is rewritten with no slice.
pub proof fn lemma_blocked_projection_example(
    a: Seq<Option<LogicalPlan>>,
    p: Node,
    len: usize,
    streaming: bool,
    ea: Seq<Option<AExpr>>,
    fuel: nat,
    home: Option<Node>,
)
    requires
        fuel >= 2,
        slot_live(a, p),
        a[p.0 as int]->Some_0 matches LogicalPlan::Projection { expr, .. } && !(all_keep_height(
            ea,
            expr@,
        ) && any_has_column(ea, expr@)),
    ensures
        ({
            let proj = a[p.0 as int]->Some_0;
            let (ri, ai) = inputs_pushed_down(
                a.update(p.0 as int, None),
                plan_inputs(proj),
                None,
                streaming,
                ea,
                (fuel - 1) as nat,
            );
            ri is Ok ==> pushed_down(
                a,
                LogicalPlan::Slice { input: p, offset: 0, len },
                None,
                streaming,
                ea,
                fuel,
                home,
            ) == (
                Ok::<LogicalPlan, PlanError>(LogicalPlan::Slice { input: p, offset: 0, len }),
                ai.update(p.0 as int, Some(proj)),
            )
        }),
{
    let proj = a[p.0 as int]->Some_0;
    let st = State { offset: 0, len };
    assert(slice_step(proj, Some(st), streaming, ea) == restart(proj, Some(st)));
    let a1 = a.update(p.0 as int, None);
    let (ri, ai) = inputs_pushed_down(a1, plan_inputs(proj), None, streaming, ea, (fuel - 1) as nat);
    let inner = pushed_down(a1, proj, Some(st), streaming, ea, (fuel - 1) as nat, Some(p));
    if ri is Ok {
        assert(inner == finished(ai, proj, Some(st), Some(p)));
        assert(slice_step(LogicalPlan::Slice { input: p, offset: 0, len }, None, streaming, ea)
            == (SliceStep::Descend { input: p, state: st, outer: None }));
        assert(pushed_down(a, LogicalPlan::Slice { input: p, offset: 0, len }, None, streaming, ea, fuel, home)
            == inner);
    }
}

} // verus!
