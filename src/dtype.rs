use vstd::prelude::*;

verus! {

/// The logical type of a column. Nested types carry their shape only: a
/// list, or a struct with its number of fields. The structs of this crate
/// (those that splitting strings yields) hold `String` fields named
/// `field_0`, `field_1`, and so on.
#[derive(Debug, Clone, Copy, PartialEq, Eq, Structural)]
pub enum DataType {
    Null,
    Boolean,
    UInt32,
    Int32,
    Int64,
    Float64,
    String,
    Binary,
    Date,
    Datetime,
    Time,
    Decimal,
    List,
    Struct(usize),
    Unknown,
}

/// A named, typed column of a schema.
#[derive(Debug, Clone, PartialEq, Eq)]
pub struct Field {
    pub name: String,
    pub dtype: DataType,
}

impl Field {
    pub fn new(name: String, dtype: DataType) -> (r: Field)
        ensures
            r.name == name,
            r.dtype == dtype,
    {
        Field { name, dtype }
    }
}

/// Whether a schema has a field of the given name.
pub open spec fn schema_has(schema: Seq<Field>, name: Seq<char>) -> bool {
    exists|i: int| 0 <= i < schema.len() && #[trigger] schema[i].name@ == name
}

/// Whether a field of the given name is in the schema.
pub fn schema_contains(schema: &Vec<Field>, name: &String) -> (r: bool)
    ensures
        r == schema_has(schema@, name@),
{
    let mut i: usize = 0;
    while i < schema.len()
        invariant
            i <= schema@.len(),
            forall|j: int| 0 <= j < i ==> schema@[j].name@ != name@,
        decreases schema@.len() - i,
    {
        if schema[i].name == *name {
            return true;
        }
        i = i + 1;
    }
    false
}

} // verus!
