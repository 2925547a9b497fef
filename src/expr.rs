use vstd::prelude::*;
use crate::arena::{Arena, Node};
use vstd::string::StringExecFns;
use crate::dtype::{DataType, Field};

verus! {

/// Binary operators of expressions.
#[derive(Debug, Clone, Copy, PartialEq, Eq, Structural)]
pub enum Operator {
    Eq,
    NotEq,
    Lt,
    LtEq,
    Gt,
    GtEq,
    Plus,
    Minus,
    Multiply,
    Divide,
    And,
    Or,
}

/// Boolean-valued functions.
#[derive(Debug, Clone, Copy, PartialEq, Eq, Structural)]
pub enum BooleanFunction {
    IsNull,
    IsNotNull,
    IsIn,
    IsUnique,
    IsDuplicated,
    IsFirstDistinct,
    Not,
    Any,
    All,
}

/// Options of parsing strings into temporal values.
#[derive(Debug, Clone, PartialEq, Eq)]
pub struct StrptimeOptions {
    pub format: Option<String>,
    pub strict: bool,
    pub exact: bool,
    pub cache: bool,
}

/// The string functions of the expression language.
#[derive(Debug, Clone, PartialEq, Eq)]
pub enum StringFunction {
    ConcatHorizontal { delimiter: String, ignore_nulls: bool },
    ConcatVertical { delimiter: String, ignore_nulls: bool },
    Contains { literal: bool, strict: bool },
    CountMatches(bool),
    EndsWith,
    Explode,
    Extract(usize),
    ExtractAll,
    ExtractGroups { dtype: DataType, pat: String },
    Find { literal: bool, strict: bool },
    ToInteger(u32, bool),
    LenBytes,
    LenChars,
    Lowercase,
    JsonDecode { dtype: Option<DataType>, infer_schema_len: Option<usize> },
    Replace { n: i64, literal: bool },
    Reverse,
    PadStart { length: usize, fill_char: char },
    PadEnd { length: usize, fill_char: char },
    Slice,
    HexEncode,
    HexDecode(bool),
    Base64Encode,
    Base64Decode(bool),
    StartsWith,
    StripChars,
    StripCharsStart,
    StripCharsEnd,
    StripPrefix,
    StripSuffix,
    SplitExact { n: usize, inclusive: bool },
    SplitN(usize),
    Strptime(DataType, StrptimeOptions),
    Split(bool),
    ToDecimal(usize),
    Titlecase,
    Uppercase,
    ZFill,
    ContainsMany { ascii_case_insensitive: bool },
    ReplaceMany { ascii_case_insensitive: bool },
}

/// Functions applied to the inputs of a `Function` expression.
#[derive(Debug, Clone, PartialEq, Eq)]
pub enum FunctionExpr {
    Boolean(BooleanFunction),
    FillNull,
    StringExpr(StringFunction),
    /// A function known only by name, with its declared height behaviour.
    Opaque { name: String, elementwise: bool },
}

/// A literal value.
#[derive(Debug, Clone, PartialEq, Eq)]
pub enum LiteralValue {
    Null,
    Boolean(bool),
    Int64(i64),
    String(String),
    /// A whole column of values.
    Series(Vec<i64>),
    /// The integers `low..high`.
    Range { low: i64, high: i64 },
}

/// A node of an expression tree; its operands are ids in the same arena.
#[derive(Debug, Clone, PartialEq, Eq)]
pub enum AExpr {
    Column(String),
    Literal(LiteralValue),
    BinaryExpr { left: Node, op: Operator, right: Node },
    Function { input: Vec<Node>, function: FunctionExpr },
    Alias(Node, String),
    Cast(Node, DataType),
    Agg(Node),
    Explode(Node),
    Window { function: Node, partition_by: Vec<Node> },
}

/// Whether a string function keeps the height of its input row for row.
pub open spec fn string_function_is_elementwise(f: StringFunction) -> bool {
    !(f is Explode || f is ConcatVertical)
}

/// Whether a function keeps the height of its input row for row.
pub open spec fn function_is_elementwise(f: FunctionExpr) -> bool {
    match f {
        FunctionExpr::Boolean(b) => !(b is IsUnique || b is IsDuplicated || b is IsFirstDistinct
            || b is Any || b is All),
        FunctionExpr::FillNull => true,
        FunctionExpr::StringExpr(s) => string_function_is_elementwise(s),
        FunctionExpr::Opaque { elementwise, .. } => elementwise,
    }
}

/// Whether one expression node, apart from its operands, keeps the height of
/// its input.
pub open spec fn node_is_elementwise(e: AExpr) -> bool {
    match e {
        AExpr::Function { function, .. } => function_is_elementwise(function),
        AExpr::Agg(_) | AExpr::Explode(_) | AExpr::Window { .. } => false,
        _ => true,
    }
}

/// Whether a literal projects to a single value whatever the input height.
pub open spec fn literal_is_scalar(v: LiteralValue) -> bool {
    match v {
        LiteralValue::Series(s) => s@.len() == 1,
        LiteralValue::Range { low, high } => high - low == 1,
        _ => true,
    }
}

/// The operands of an expression node, in order.
pub open spec fn operands(e: AExpr) -> Seq<Node> {
    match e {
        AExpr::Column(_) | AExpr::Literal(_) => Seq::empty(),
        AExpr::BinaryExpr { left, right, .. } => seq![left, right],
        AExpr::Function { input, .. } => input@,
        AExpr::Alias(n, _) | AExpr::Cast(n, _) | AExpr::Agg(n) | AExpr::Explode(n) => seq![n],
        AExpr::Window { function, partition_by } => seq![function] + partition_by@,
    }
}

/// The expression node at an id, if the id holds one.
pub open spec fn expr_at(ea: Seq<Option<AExpr>>, n: Node) -> Option<AExpr> {
    if n.0 < ea.len() {
        ea[n.0 as int]
    } else {
        None
    }
}

/// The ids of the expression tree under `id`, root first, each node before
/// its operands' trees; `None` if a node is missing or an operand id is not
/// below the id of the node that uses it (a tree is built from its leaves up).
pub open spec fn subtree(ea: Seq<Option<AExpr>>, id: Node) -> Option<Seq<Node>>
    decreases id.0 + 1, 0int,
{
    if id.0 < ea.len() && ea[id.0 as int] is Some {
        let ops = operands(ea[id.0 as int]->Some_0);
        match subtree_list(ea, ops, id) {
            Some(s) => Some(seq![id] + s),
            None => None,
        }
    } else {
        None
    }
}

/// The concatenated subtrees of a list of operands of the node `bound`.
pub open spec fn subtree_list(ea: Seq<Option<AExpr>>, ids: Seq<Node>, bound: Node) -> Option<
    Seq<Node>,
>
    decreases bound.0, ids.len(),
{
    if ids.len() == 0 {
        Some(Seq::empty())
    } else if ids.last().0 < bound.0 {
        match (subtree_list(ea, ids.drop_last(), bound), subtree(ea, ids.last())) {
            (Some(a), Some(b)) => Some(a + b),
            _ => None,
        }
    } else {
        None
    }
}

pub fn operand_ids(e: &AExpr) -> (r: Vec<Node>)
    ensures
        r@ == operands(*e),
{
    match e {
        AExpr::Column(_) | AExpr::Literal(_) => Vec::new(),
        AExpr::BinaryExpr { left, right, .. } => vec![*left, *right],
        AExpr::Function { input, .. } => {
            let mut v: Vec<Node> = Vec::new();
            let mut i: usize = 0;
            while i < input.len()
                invariant
                    i <= input@.len(),
                    v@ == input@.subrange(0, i as int),
                decreases input@.len() - i,
            {
                v.push(input[i]);
                i = i + 1;
            }
            proof {
                assert(v@ =~= input@);
            }
            v
        },
        AExpr::Alias(n, _) | AExpr::Cast(n, _) | AExpr::Agg(n) | AExpr::Explode(n) => vec![*n],
        AExpr::Window { function, partition_by } => {
            let mut v: Vec<Node> = vec![*function];
            let mut i: usize = 0;
            while i < partition_by.len()
                invariant
                    i <= partition_by@.len(),
                    v@ == seq![*function] + partition_by@.subrange(0, i as int),
                decreases partition_by@.len() - i,
            {
                v.push(partition_by[i]);
                i = i + 1;
                proof {
                    assert(v@ =~= seq![*function] + partition_by@.subrange(0, i as int));
                }
            }
            proof {
                assert(v@ =~= seq![*function] + partition_by@);
            }
            v
        },
    }
}

/// The ids of the expression tree under `id`, root first (see [`subtree`]).
pub fn subtree_nodes(ea: &Arena<AExpr>, id: Node) -> (r: Option<Vec<Node>>)
    ensures
        r matches Some(v) ==> subtree(ea@, id) == Some(v@),
        r is None ==> subtree(ea@, id) is None,
    decreases id.0 + 1, 0int,
{
    if !ea.contains(id) {
        return None;
    }
    let ops = operand_ids(ea.get(id));
    let rest = subtree_list_nodes(ea, &ops, id);
    match rest {
        Some(s) => {
            let mut out: Vec<Node> = vec![id];
            let mut i: usize = 0;
            while i < s.len()
                invariant
                    i <= s@.len(),
                    out@ == seq![id] + s@.subrange(0, i as int),
                decreases s@.len() - i,
            {
                out.push(s[i]);
                i = i + 1;
                proof {
                    assert(out@ =~= seq![id] + s@.subrange(0, i as int));
                }
            }
            proof {
                assert(s@.subrange(0, s@.len() as int) =~= s@);
            }
            Some(out)
        },
        None => None,
    }
}

fn subtree_list_nodes(ea: &Arena<AExpr>, ids: &Vec<Node>, bound: Node) -> (r: Option<Vec<Node>>)
    ensures
        r matches Some(v) ==> subtree_list(ea@, ids@, bound) == Some(v@),
        r is None ==> subtree_list(ea@, ids@, bound) is None,
    decreases bound.0, ids@.len(),
{
    let mut out: Vec<Node> = Vec::new();
    let mut i: usize = 0;
    while i < ids.len()
        invariant
            i <= ids@.len(),
            subtree_list(ea@, ids@.subrange(0, i as int), bound) == Some(out@),
        decreases ids@.len() - i,
    {
        let x = ids[i];
        proof {
            let pre = ids@.subrange(0, i as int + 1);
            assert(pre.drop_last() =~= ids@.subrange(0, i as int));
            assert(pre.last() == x);
        }
        if x.0 >= bound.0 {
            proof {
                lemma_subtree_list_fails(ea@, ids@, bound, i as int + 1);
            }
            return None;
        }
        let sub = subtree_nodes(ea, x);
        match sub {
            Some(s) => {
                let mut j: usize = 0;
                let ghost before = out@;
                while j < s.len()
                    invariant
                        j <= s@.len(),
                        out@ == before + s@.subrange(0, j as int),
                    decreases s@.len() - j,
                {
                    out.push(s[j]);
                    j = j + 1;
                    proof {
                        assert(out@ =~= before + s@.subrange(0, j as int));
                    }
                }
                proof {
                    assert(s@.subrange(0, s@.len() as int) =~= s@);
                }
            },
            None => {
                proof {
                    lemma_subtree_list_fails(ea@, ids@, bound, i as int + 1);
                }
                return None;
            },
        }
        i = i + 1;
    }
    proof {
        assert(ids@.subrange(0, ids@.len() as int) =~= ids@);
    }
    Some(out)
}

/// Once a prefix of the operands fails, every longer prefix fails too.
proof fn lemma_subtree_list_fails(ea: Seq<Option<AExpr>>, ids: Seq<Node>, bound: Node, k: int)
    requires
        0 < k <= ids.len(),
        subtree_list(ea, ids.subrange(0, k), bound) is None,
    ensures
        subtree_list(ea, ids, bound) is None,
    decreases ids.len() - k,
{
    if k < ids.len() {
        let next = ids.subrange(0, k + 1);
        assert(next.drop_last() =~= ids.subrange(0, k));
        lemma_subtree_list_fails(ea, ids, bound, k + 1);
    } else {
        assert(ids.subrange(0, k) =~= ids);
    }
}


/// The type of what a string function yields on a column of type `input`.
pub open spec fn string_output_dtype(f: StringFunction, input: DataType) -> DataType {
    match &f {
            StringFunction::ConcatHorizontal { .. } => DataType::String,
            StringFunction::ConcatVertical { .. } => DataType::String,
            StringFunction::Contains { .. } => DataType::Boolean,
            StringFunction::CountMatches(_) => DataType::UInt32,
            StringFunction::EndsWith => DataType::Boolean,
            StringFunction::Explode => input,
            StringFunction::Extract(_) => input,
            StringFunction::ExtractAll => DataType::List,
            StringFunction::ExtractGroups { dtype, .. } => *dtype,
            StringFunction::Find { .. } => DataType::UInt32,
            StringFunction::ToInteger(..) => DataType::Int64,
            StringFunction::LenBytes => DataType::UInt32,
            StringFunction::LenChars => DataType::UInt32,
            StringFunction::Lowercase => input,
            StringFunction::JsonDecode { dtype, .. } => match dtype {
                Some(d) => *d,
                None => DataType::Unknown,
            },
            StringFunction::Replace { .. } => input,
            StringFunction::Reverse => input,
            StringFunction::PadStart { .. } => input,
            StringFunction::PadEnd { .. } => input,
            StringFunction::Slice => input,
            StringFunction::HexEncode => input,
            StringFunction::HexDecode(_) => DataType::Binary,
            StringFunction::Base64Encode => input,
            StringFunction::Base64Decode(_) => DataType::Binary,
            StringFunction::StartsWith => DataType::Boolean,
            StringFunction::StripChars => input,
            StringFunction::StripCharsStart => input,
            StringFunction::StripCharsEnd => input,
            StringFunction::StripPrefix => input,
            StringFunction::StripSuffix => input,
            StringFunction::SplitExact { n, .. } => DataType::Struct(
                if *n < usize::MAX { (*n + 1) as usize } else { *n },
            ),
            StringFunction::SplitN(n) => DataType::Struct(*n),
            StringFunction::Strptime(dtype, _) => *dtype,
            StringFunction::Split(_) => DataType::List,
            StringFunction::ToDecimal(_) => DataType::Decimal,
            StringFunction::Titlecase => input,
            StringFunction::Uppercase => input,
            StringFunction::ZFill => input,
            StringFunction::ContainsMany { .. } => DataType::Boolean,
            StringFunction::ReplaceMany { .. } => input,
    }
}

/// The display name of a string function.
pub open spec fn string_function_name(f: StringFunction) -> Seq<char> {
    match &f {
            StringFunction::ConcatHorizontal { .. } => "str.concat_horizontal"@,
            StringFunction::ConcatVertical { .. } => "str.concat_vertical"@,
            StringFunction::Contains { .. } => "str.contains"@,
            StringFunction::CountMatches(_) => "str.count_matches"@,
            StringFunction::EndsWith => "str.ends_with"@,
            StringFunction::Explode => "str.explode"@,
            StringFunction::Extract(_) => "str.extract"@,
            StringFunction::ExtractAll => "str.extract_all"@,
            StringFunction::ExtractGroups { .. } => "str.extract_groups"@,
            StringFunction::Find { .. } => "str.find"@,
            StringFunction::ToInteger(..) => "str.to_integer"@,
            StringFunction::LenBytes => "str.len_bytes"@,
            StringFunction::LenChars => "str.len_chars"@,
            StringFunction::Lowercase => "str.lowercase"@,
            StringFunction::JsonDecode { .. } => "str.json_decode"@,
            StringFunction::Replace { .. } => "str.replace"@,
            StringFunction::Reverse => "str.reverse"@,
            StringFunction::PadStart { .. } => "str.pad_start"@,
            StringFunction::PadEnd { .. } => "str.pad_end"@,
            StringFunction::Slice => "str.slice"@,
            StringFunction::HexEncode => "str.hex_encode"@,
            StringFunction::HexDecode(_) => "str.hex_decode"@,
            StringFunction::Base64Encode => "str.base64_encode"@,
            StringFunction::Base64Decode(_) => "str.base64_decode"@,
            StringFunction::StartsWith => "str.starts_with"@,
            StringFunction::StripChars => "str.strip_chars"@,
            StringFunction::StripCharsStart => "str.strip_chars_start"@,
            StringFunction::StripCharsEnd => "str.strip_chars_end"@,
            StringFunction::StripPrefix => "str.strip_prefix"@,
            StringFunction::StripSuffix => "str.strip_suffix"@,
            StringFunction::SplitExact { inclusive, .. } => {
                if *inclusive { "str.split_exact_inclusive"@ } else { "str.split_exact"@ }
            },
            StringFunction::SplitN(_) => "str.splitn"@,
            StringFunction::Strptime(..) => "str.strptime"@,
            StringFunction::Split(inclusive) => if *inclusive { "str.split_inclusive"@ } else { "str.split"@ },
            StringFunction::ToDecimal(_) => "str.to_decimal"@,
            StringFunction::Titlecase => "str.titlecase"@,
            StringFunction::Uppercase => "str.uppercase"@,
            StringFunction::ZFill => "str.zfill"@,
            StringFunction::ContainsMany { .. } => "str.contains_many"@,
            StringFunction::ReplaceMany { .. } => "str.replace_many"@,
    }
}

impl StringFunction {
    /// The field that the function yields on the field `input`: the same
    /// name, with the type that the function produces.
    pub fn get_field(&self, input: &Field) -> (r: Field)
        ensures
            r.name@ == input.name@,
            r.dtype == string_output_dtype(*self, input.dtype),
    {
        let dtype = match self {
            StringFunction::ConcatHorizontal { .. } => DataType::String,
            StringFunction::ConcatVertical { .. } => DataType::String,
            StringFunction::Contains { .. } => DataType::Boolean,
            StringFunction::CountMatches(_) => DataType::UInt32,
            StringFunction::EndsWith => DataType::Boolean,
            StringFunction::Explode => input.dtype,
            StringFunction::Extract(_) => input.dtype,
            StringFunction::ExtractAll => DataType::List,
            StringFunction::ExtractGroups { dtype, .. } => *dtype,
            StringFunction::Find { .. } => DataType::UInt32,
            StringFunction::ToInteger(..) => DataType::Int64,
            StringFunction::LenBytes => DataType::UInt32,
            StringFunction::LenChars => DataType::UInt32,
            StringFunction::Lowercase => input.dtype,
            StringFunction::JsonDecode { dtype, .. } => match dtype {
                Some(d) => *d,
                None => DataType::Unknown,
            },
            StringFunction::Replace { .. } => input.dtype,
            StringFunction::Reverse => input.dtype,
            StringFunction::PadStart { .. } => input.dtype,
            StringFunction::PadEnd { .. } => input.dtype,
            StringFunction::Slice => input.dtype,
            StringFunction::HexEncode => input.dtype,
            StringFunction::HexDecode(_) => DataType::Binary,
            StringFunction::Base64Encode => input.dtype,
            StringFunction::Base64Decode(_) => DataType::Binary,
            StringFunction::StartsWith => DataType::Boolean,
            StringFunction::StripChars => input.dtype,
            StringFunction::StripCharsStart => input.dtype,
            StringFunction::StripCharsEnd => input.dtype,
            StringFunction::StripPrefix => input.dtype,
            StringFunction::StripSuffix => input.dtype,
            StringFunction::SplitExact { n, .. } => DataType::Struct(
                if *n < usize::MAX { *n + 1 } else { *n },
            ),
            StringFunction::SplitN(n) => DataType::Struct(*n),
            StringFunction::Strptime(dtype, _) => *dtype,
            StringFunction::Split(_) => DataType::List,
            StringFunction::ToDecimal(_) => DataType::Decimal,
            StringFunction::Titlecase => input.dtype,
            StringFunction::Uppercase => input.dtype,
            StringFunction::ZFill => input.dtype,
            StringFunction::ContainsMany { .. } => DataType::Boolean,
            StringFunction::ReplaceMany { .. } => input.dtype,
        };
        Field { name: input.name.clone(), dtype }
    }

    /// The display name of the function, such as `str.contains`.
    pub fn to_string(&self) -> (r: String)
        ensures
            r@ == string_function_name(*self),
    {
        match self {
            StringFunction::ConcatHorizontal { .. } => String::from_str("str.concat_horizontal"),
            StringFunction::ConcatVertical { .. } => String::from_str("str.concat_vertical"),
            StringFunction::Contains { .. } => String::from_str("str.contains"),
            StringFunction::CountMatches(_) => String::from_str("str.count_matches"),
            StringFunction::EndsWith => String::from_str("str.ends_with"),
            StringFunction::Explode => String::from_str("str.explode"),
            StringFunction::Extract(_) => String::from_str("str.extract"),
            StringFunction::ExtractAll => String::from_str("str.extract_all"),
            StringFunction::ExtractGroups { .. } => String::from_str("str.extract_groups"),
            StringFunction::Find { .. } => String::from_str("str.find"),
            StringFunction::ToInteger(..) => String::from_str("str.to_integer"),
            StringFunction::LenBytes => String::from_str("str.len_bytes"),
            StringFunction::LenChars => String::from_str("str.len_chars"),
            StringFunction::Lowercase => String::from_str("str.lowercase"),
            StringFunction::JsonDecode { .. } => String::from_str("str.json_decode"),
            StringFunction::Replace { .. } => String::from_str("str.replace"),
            StringFunction::Reverse => String::from_str("str.reverse"),
            StringFunction::PadStart { .. } => String::from_str("str.pad_start"),
            StringFunction::PadEnd { .. } => String::from_str("str.pad_end"),
            StringFunction::Slice => String::from_str("str.slice"),
            StringFunction::HexEncode => String::from_str("str.hex_encode"),
            StringFunction::HexDecode(_) => String::from_str("str.hex_decode"),
            StringFunction::Base64Encode => String::from_str("str.base64_encode"),
            StringFunction::Base64Decode(_) => String::from_str("str.base64_decode"),
            StringFunction::StartsWith => String::from_str("str.starts_with"),
            StringFunction::StripChars => String::from_str("str.strip_chars"),
            StringFunction::StripCharsStart => String::from_str("str.strip_chars_start"),
            StringFunction::StripCharsEnd => String::from_str("str.strip_chars_end"),
            StringFunction::StripPrefix => String::from_str("str.strip_prefix"),
            StringFunction::StripSuffix => String::from_str("str.strip_suffix"),
            StringFunction::SplitExact { inclusive, .. } => {
                if *inclusive {
                    String::from_str("str.split_exact_inclusive")
                } else {
                    String::from_str("str.split_exact")
                }
            },
            StringFunction::SplitN(_) => String::from_str("str.splitn"),
            StringFunction::Strptime(..) => String::from_str("str.strptime"),
            StringFunction::Split(inclusive) => {
                if *inclusive {
                    String::from_str("str.split_inclusive")
                } else {
                    String::from_str("str.split")
                }
            },
            StringFunction::ToDecimal(_) => String::from_str("str.to_decimal"),
            StringFunction::Titlecase => String::from_str("str.titlecase"),
            StringFunction::Uppercase => String::from_str("str.uppercase"),
            StringFunction::ZFill => String::from_str("str.zfill"),
            StringFunction::ContainsMany { .. } => String::from_str("str.contains_many"),
            StringFunction::ReplaceMany { .. } => String::from_str("str.replace_many"),
        }
    }
}

} // verus!
