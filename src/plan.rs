use vstd::prelude::*;
use crate::arena::{Arena, Node};
use crate::dtype::Field;

verus! {

/// The kinds of join.
#[derive(Debug, Clone, Copy, PartialEq, Eq, Structural)]
pub enum JoinType {
    Inner,
    Left,
    Outer,
    Cross,
    Semi,
    Anti,
    AsOf,
}

/// The arguments of a sort.
#[derive(Debug, Clone, PartialEq, Eq)]
pub struct SortArguments {
    /// One flag per sort key.
    pub descending: Vec<bool>,
    pub nulls_last: bool,
    pub maintain_order: bool,
    /// A slice `(offset, len)` taken of the sorted rows.
    pub slice: Option<(i64, usize)>,
}

/// A named transformation of a whole frame.
#[derive(Debug, Clone, PartialEq, Eq)]
pub enum FunctionNode {
    Explode { columns: Vec<String> },
    Melt,
    Rename { existing: Vec<String>, new: Vec<String> },
    /// A transformation that declares whether filters and slices may be
    /// moved past it.
    Opaque { name: String, predicate_pd: bool, projection_pd: bool },
}

impl FunctionNode {
    /// Whether a filter may be moved to the input of the transformation.
    pub open spec fn spec_allow_predicate_pd(&self) -> bool {
        match self {
            FunctionNode::Explode { .. } | FunctionNode::Melt => false,
            FunctionNode::Rename { .. } => true,
            FunctionNode::Opaque { predicate_pd, .. } => *predicate_pd,
        }
    }

    pub fn allow_predicate_pd(&self) -> (r: bool)
        ensures
            r == self.spec_allow_predicate_pd(),
    {
        match self {
            FunctionNode::Explode { .. } | FunctionNode::Melt => false,
            FunctionNode::Rename { .. } => true,
            FunctionNode::Opaque { predicate_pd, .. } => *predicate_pd,
        }
    }
}

/// A node of a logical plan. Inputs and expressions are ids in their arenas.
#[derive(Debug, Clone, PartialEq, Eq)]
pub enum LogicalPlan {
    /// A read of a source that skips its first `skip_rows` rows and keeps
    /// at most `n_rows` of the rest, with an optional filter.
    Scan {
        path: String,
        schema: Vec<Field>,
        n_rows: Option<usize>,
        skip_rows: usize,
        predicate: Option<Node>,
    },
    /// An already materialized frame.
    DataFrameScan { schema: Vec<Field> },
    Selection { input: Node, predicate: Node },
    Projection { input: Node, expr: Vec<Node>, schema: Vec<Field> },
    /// Adds or replaces columns.
    HStack { input: Node, exprs: Vec<Node>, schema: Vec<Field> },
    Aggregate {
        input: Node,
        keys: Vec<Node>,
        aggs: Vec<Node>,
        schema: Vec<Field>,
        maintain_order: bool,
        slice: Option<(i64, usize)>,
    },
    Join {
        input_left: Node,
        input_right: Node,
        left_on: Vec<Node>,
        right_on: Vec<Node>,
        schema: Vec<Field>,
        how: JoinType,
        slice: Option<(i64, usize)>,
    },
    Sort { input: Node, by_column: Vec<Node>, args: SortArguments },
    Slice { input: Node, offset: i64, len: usize },
    Distinct { input: Node, slice: Option<(i64, usize)> },
    Union { inputs: Vec<Node>, slice: Option<(i64, usize)> },
    HConcat { inputs: Vec<Node>, schema: Vec<Field> },
    MapFunction { input: Node, function: FunctionNode, schema: Vec<Field> },
    Cache { input: Node, id: usize },
}

/// The input ids of a plan node, in order.
pub open spec fn plan_inputs(lp: LogicalPlan) -> Seq<Node> {
    match lp {
        LogicalPlan::Scan { .. } | LogicalPlan::DataFrameScan { .. } => Seq::empty(),
        LogicalPlan::Join { input_left, input_right, .. } => seq![input_left, input_right],
        LogicalPlan::Union { inputs, .. } | LogicalPlan::HConcat { inputs, .. } => inputs@,
        LogicalPlan::Selection { input, .. }
        | LogicalPlan::Projection { input, .. }
        | LogicalPlan::HStack { input, .. }
        | LogicalPlan::Aggregate { input, .. }
        | LogicalPlan::Sort { input, .. }
        | LogicalPlan::Slice { input, .. }
        | LogicalPlan::Distinct { input, .. }
        | LogicalPlan::MapFunction { input, .. }
        | LogicalPlan::Cache { input, .. } => seq![input],
    }
}

/// The schema that a node declares itself; `None` for the nodes whose
/// schema is that of their (first) input.
pub open spec fn declared_schema(lp: LogicalPlan) -> Option<Seq<Field>> {
    match lp {
        LogicalPlan::Scan { schema, .. }
        | LogicalPlan::DataFrameScan { schema }
        | LogicalPlan::Projection { schema, .. }
        | LogicalPlan::HStack { schema, .. }
        | LogicalPlan::Aggregate { schema, .. }
        | LogicalPlan::Join { schema, .. }
        | LogicalPlan::HConcat { schema, .. }
        | LogicalPlan::MapFunction { schema, .. } => Some(schema@),
        _ => None,
    }
}

impl LogicalPlan {
    /// The input ids of the node, in order.
    pub fn get_inputs(&self) -> (r: Vec<Node>)
        ensures
            r@ == plan_inputs(*self),
    {
        match self {
            LogicalPlan::Scan { .. } | LogicalPlan::DataFrameScan { .. } => Vec::new(),
            LogicalPlan::Join { input_left, input_right, .. } => vec![*input_left, *input_right],
            LogicalPlan::Union { inputs, .. } | LogicalPlan::HConcat { inputs, .. } => {
                let mut v: Vec<Node> = Vec::new();
                let mut i: usize = 0;
                while i < inputs.len()
                    invariant
                        i <= inputs@.len(),
                        v@ == inputs@.subrange(0, i as int),
                    decreases inputs@.len() - i,
                {
                    v.push(inputs[i]);
                    i = i + 1;
                }
                proof {
                    assert(v@ =~= inputs@);
                }
                v
            },
            LogicalPlan::Selection { input, .. }
            | LogicalPlan::Projection { input, .. }
            | LogicalPlan::HStack { input, .. }
            | LogicalPlan::Aggregate { input, .. }
            | LogicalPlan::Sort { input, .. }
            | LogicalPlan::Slice { input, .. }
            | LogicalPlan::Distinct { input, .. }
            | LogicalPlan::MapFunction { input, .. }
            | LogicalPlan::Cache { input, .. } => vec![*input],
        }
    }
}

/// The output schema of the plan rooted at `id`, following at most `fuel`
/// nodes: a node's declared schema, else its first input's.
pub open spec fn schema_at(arena: Seq<Option<LogicalPlan>>, id: Node, fuel: nat) -> Option<Seq<Field>>
    decreases fuel,
{
    if fuel == 0 || id.0 >= arena.len() || arena[id.0 as int] is None {
        None
    } else {
        let lp = arena[id.0 as int]->Some_0;
        match declared_schema(lp) {
            Some(schema) => Some(schema),
            None => if plan_inputs(lp).len() > 0 {
                schema_at(arena, plan_inputs(lp)[0], (fuel - 1) as nat)
            } else {
                None
            },
        }
    }
}

fn copy_schema(schema: &Vec<Field>) -> (r: Vec<Field>)
    ensures
        r@ == schema@,
{
    let mut out: Vec<Field> = Vec::new();
    let mut i: usize = 0;
    while i < schema.len()
        invariant
            i <= schema@.len(),
            out@ == schema@.subrange(0, i as int),
        decreases schema@.len() - i,
    {
        out.push(Field { name: schema[i].name.clone(), dtype: schema[i].dtype });
        i = i + 1;
        proof {
            assert(out@ =~= schema@.subrange(0, i as int));
        }
    }
    proof {
        assert(out@ =~= schema@);
    }
    out
}

/// The output schema of the plan rooted at `id` (see [`schema_at`]).
pub fn output_schema(arena: &Arena<LogicalPlan>, id: Node, fuel: usize) -> (r: Option<Vec<Field>>)
    ensures
        r matches Some(v) ==> schema_at(arena@, id, fuel as nat) == Some(v@),
        r is None ==> schema_at(arena@, id, fuel as nat) is None,
    decreases fuel,
{
    if fuel == 0 || !arena.contains(id) {
        return None;
    }
    let lp = arena.get(id);
    match lp {
        LogicalPlan::Scan { schema, .. }
        | LogicalPlan::DataFrameScan { schema }
        | LogicalPlan::Projection { schema, .. }
        | LogicalPlan::HStack { schema, .. }
        | LogicalPlan::Aggregate { schema, .. }
        | LogicalPlan::Join { schema, .. }
        | LogicalPlan::HConcat { schema, .. }
        | LogicalPlan::MapFunction { schema, .. } => Some(copy_schema(schema)),
        _ => {
            let inputs = lp.get_inputs();
            if inputs.len() > 0 {
                output_schema(arena, inputs[0], fuel - 1)
            } else {
                None
            }
        },
    }
}

} // verus!
