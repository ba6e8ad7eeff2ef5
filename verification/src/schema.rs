//! Columns of tables: their names, the types of their values, and whether values may be missing.

use vstd::prelude::*;

verus! {

/// The type of a column's values.
#[derive(Debug, Clone, Copy, PartialEq, Eq, Structural)]
pub enum DataType {
    Boolean,
    Int32,
    Int64,
    Float64,
    Utf8,
    /// A type that no code here writes or reads.
    Other,
}

/// A column of a table.
#[derive(Debug)]
pub struct Field {
    pub name: String,
    pub data_type: DataType,
    pub nullable: bool,
}

/// A column as a value.
pub ghost struct FieldView {
    pub name: Seq<char>,
    pub data_type: DataType,
    pub nullable: bool,
}

impl View for Field {
    type V = FieldView;

    open spec fn view(&self) -> FieldView {
        FieldView { name: self.name@, data_type: self.data_type, nullable: self.nullable }
    }
}

/// A column of the given name and type.
pub open spec fn field_of(name: Seq<char>, data_type: DataType, nullable: bool) -> FieldView {
    FieldView { name, data_type, nullable }
}

/// The columns of a list as values.
pub open spec fn field_views(fields: Seq<Field>) -> Seq<FieldView> {
    fields.map_values(|f: Field| f@)
}

impl Field {
    /// A column of the given name and type.
    pub fn new(name: &str, data_type: DataType, nullable: bool) -> (r: Field)
        ensures
            r@ == field_of(name@, data_type, nullable),
    {
        Field { name: name.to_string(), data_type, nullable }
    }

    /// A copy of the column.
    pub fn copy(&self) -> (r: Field)
        ensures
            r@ == self@,
    {
        Field { name: self.name.clone(), data_type: self.data_type, nullable: self.nullable }
    }
}

/// The columns of a list, followed by further ones.
pub fn extended(fields: &Vec<Field>, more: Vec<Field>) -> (r: Vec<Field>)
    ensures
        field_views(r@) == field_views(fields@) + field_views(more@),
{
    let mut out: Vec<Field> = Vec::new();
    let mut i: usize = 0;
    while i < fields.len()
        invariant
            i <= fields@.len(),
            out@.len() == i,
            forall|k: int| 0 <= k < i ==> (#[trigger] out@[k])@ == fields@[k]@,
        decreases fields.len() - i,
    {
        out.push(fields[i].copy());
        i = i + 1;
    }
    let mut j: usize = 0;
    let ghost n = fields@.len();
    while j < more.len()
        invariant
            j <= more@.len(),
            n == fields@.len(),
            out@.len() == n + j,
            forall|k: int| 0 <= k < n ==> (#[trigger] out@[k])@ == fields@[k]@,
            forall|k: int| n <= k < n + j ==> (#[trigger] out@[k])@ == more@[k - n]@,
        decreases more.len() - j,
    {
        out.push(more[j].copy());
        j = j + 1;
    }
    assert(field_views(out@) =~= field_views(fields@) + field_views(more@));
    out
}

/// The position of the first column with the given name.
pub open spec fn position(fields: Seq<FieldView>, name: Seq<char>) -> Option<int>
    decreases fields.len(),
{
    if fields.len() == 0 {
        None
    } else if fields[0].name == name {
        Some(0)
    } else {
        match position(fields.drop_first(), name) {
            Some(i) => Some(i + 1),
            None => None,
        }
    }
}

/// Columns that are appended keep the earlier ones where they are.
pub proof fn law_extending_keeps_positions(
    fields: Seq<FieldView>,
    more: Seq<FieldView>,
    name: Seq<char>,
)
    requires
        position(fields, name) is Some,
    ensures
        position(fields + more, name) == position(fields, name),
    decreases fields.len(),
{
    if fields[0].name != name {
        law_extending_keeps_positions(fields.drop_first(), more, name);
        assert((fields + more).drop_first() =~= fields.drop_first() + more);
    }
}

}
