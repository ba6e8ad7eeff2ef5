//! Batches of rows, column by column.

use vstd::prelude::*;

use crate::text::str_eq;

verus! {

/// The values of a column. A column of 32-bit integers says of each row whether its value is
/// null; columns of types that no code here reads hold nothing.
#[derive(Debug)]
pub enum Column {
    Int64(Vec<i64>),
    Int32(Vec<i32>, Vec<bool>),
    Boolean(Vec<bool>),
    Utf8(Vec<String>),
    Other,
}

/// A column and its name.
#[derive(Debug)]
pub struct NamedColumn {
    pub name: String,
    pub column: Column,
}

/// A batch of rows, column by column.
#[derive(Debug)]
pub struct Batch {
    pub num_rows: usize,
    pub columns: Vec<NamedColumn>,
}

/// Whether a column has a value for each of that many rows.
pub open spec fn has_rows(column: Column, rows: nat) -> bool {
    match column {
        Column::Int64(v) => v@.len() == rows,
        Column::Int32(v, nulls) => v@.len() == rows && nulls@.len() == rows,
        Column::Boolean(v) => v@.len() == rows,
        Column::Utf8(v) => v@.len() == rows,
        Column::Other => true,
    }
}

/// The first of the columns with the given name.
pub open spec fn named(columns: Seq<NamedColumn>, name: Seq<char>) -> Option<Column>
    decreases columns.len(),
{
    if columns.len() == 0 {
        None
    } else if columns[0].name@ == name {
        Some(columns[0].column)
    } else {
        named(columns.drop_first(), name)
    }
}

impl Batch {
    /// Every column has a value for each row.
    pub open spec fn wf(&self) -> bool {
        forall|i: int|
            0 <= i < self.columns@.len() ==> has_rows(
                (#[trigger] self.columns@[i]).column,
                self.num_rows as nat,
            )
    }

    pub open spec fn find(&self, name: Seq<char>) -> Option<Column> {
        named(self.columns@, name)
    }

    /// The first column with the given name.
    pub fn column_by_name(&self, name: &str) -> (r: Option<&Column>)
        ensures
            match r {
                Some(c) => self.find(name@) == Some(*c),
                None => self.find(name@) is None,
            },
            self.wf() ==> match r {
                Some(c) => has_rows(*c, self.num_rows as nat),
                None => true,
            },
    {
        let mut i: usize = 0;
        assert(self.columns@.skip(0) =~= self.columns@);
        while i < self.columns.len()
            invariant
                i <= self.columns@.len(),
                self.find(name@) == named(self.columns@.skip(i as int), name@),
            decreases self.columns.len() - i,
        {
            let ghost rest = self.columns@.skip(i as int);
            assert(rest[0] == self.columns@[i as int]);
            if str_eq(self.columns[i].name.as_str(), name) {
                return Some(&self.columns[i].column);
            }
            assert(rest.drop_first() =~= self.columns@.skip(i as int + 1));
            i = i + 1;
        }
        None
    }
}

}
