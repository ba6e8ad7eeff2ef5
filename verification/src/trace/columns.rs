//! Columns of the types that the analyses read.

use vstd::prelude::*;

use crate::batch::{Batch, Column};
use crate::trace::error::{TraceError, TraceErrorView};

verus! {

impl Batch {
    /// The values of a column of 64-bit integers.
    pub open spec fn int64_of(&self, name: Seq<char>) -> Result<Seq<i64>, TraceErrorView> {
        match self.find(name) {
            None => Err(TraceErrorView::MissingColumn(name)),
            Some(Column::Int64(v)) => Ok(v@),
            Some(_) => Err(TraceErrorView::InvalidColumnType(name)),
        }
    }

    /// The values of a column of 32-bit integers, and which are null.
    pub open spec fn int32_of(&self, name: Seq<char>) -> Result<
        (Seq<i32>, Seq<bool>),
        TraceErrorView,
    > {
        match self.find(name) {
            None => Err(TraceErrorView::MissingColumn(name)),
            Some(Column::Int32(v, nulls)) => Ok((v@, nulls@)),
            Some(_) => Err(TraceErrorView::InvalidColumnType(name)),
        }
    }

    /// The values of a column of truth values.
    pub open spec fn boolean_of(&self, name: Seq<char>) -> Result<Seq<bool>, TraceErrorView> {
        match self.find(name) {
            None => Err(TraceErrorView::MissingColumn(name)),
            Some(Column::Boolean(v)) => Ok(v@),
            Some(_) => Err(TraceErrorView::InvalidColumnType(name)),
        }
    }

    /// The values of a column of texts.
    pub open spec fn utf8_of(&self, name: Seq<char>) -> Result<Seq<String>, TraceErrorView> {
        match self.find(name) {
            None => Err(TraceErrorView::MissingColumn(name)),
            Some(Column::Utf8(v)) => Ok(v@),
            Some(_) => Err(TraceErrorView::InvalidColumnType(name)),
        }
    }

    /// The values of a column of 64-bit integers.
    pub fn int64_column(&self, name: &str) -> (r: Result<&Vec<i64>, TraceError>)
        requires
            self.wf(),
        ensures
            match r {
                Ok(v) => self.int64_of(name@) == Ok::<Seq<i64>, TraceErrorView>(v@) && v@.len()
                    == self.num_rows,
                Err(e) => self.int64_of(name@) == Err::<Seq<i64>, TraceErrorView>(e@),
            },
    {
        match self.column_by_name(name) {
            None => Err(TraceError::MissingColumn(name.to_string())),
            Some(Column::Int64(v)) => Ok(v),
            Some(_) => Err(TraceError::InvalidColumnType(name.to_string())),
        }
    }

    /// The values of a column of 32-bit integers, and which are null.
    pub fn int32_column(&self, name: &str) -> (r: Result<(&Vec<i32>, &Vec<bool>), TraceError>)
        requires
            self.wf(),
        ensures
            match r {
                Ok(v) => self.int32_of(name@) == Ok::<(Seq<i32>, Seq<bool>), TraceErrorView>(
                    (v.0@, v.1@),
                ) && v.0@.len() == self.num_rows && v.1@.len() == self.num_rows,
                Err(e) => self.int32_of(name@) == Err::<(Seq<i32>, Seq<bool>), TraceErrorView>(e@),
            },
    {
        match self.column_by_name(name) {
            None => Err(TraceError::MissingColumn(name.to_string())),
            Some(Column::Int32(v, nulls)) => Ok((v, nulls)),
            Some(_) => Err(TraceError::InvalidColumnType(name.to_string())),
        }
    }

    /// The values of a column of truth values.
    pub fn boolean_column(&self, name: &str) -> (r: Result<&Vec<bool>, TraceError>)
        requires
            self.wf(),
        ensures
            match r {
                Ok(v) => self.boolean_of(name@) == Ok::<Seq<bool>, TraceErrorView>(v@) && v@.len()
                    == self.num_rows,
                Err(e) => self.boolean_of(name@) == Err::<Seq<bool>, TraceErrorView>(e@),
            },
    {
        match self.column_by_name(name) {
            None => Err(TraceError::MissingColumn(name.to_string())),
            Some(Column::Boolean(v)) => Ok(v),
            Some(_) => Err(TraceError::InvalidColumnType(name.to_string())),
        }
    }

    /// The values of a column of texts.
    pub fn utf8_column(&self, name: &str) -> (r: Result<&Vec<String>, TraceError>)
        requires
            self.wf(),
        ensures
            match r {
                Ok(v) => self.utf8_of(name@) == Ok::<Seq<String>, TraceErrorView>(v@) && v@.len()
                    == self.num_rows,
                Err(e) => self.utf8_of(name@) == Err::<Seq<String>, TraceErrorView>(e@),
            },
    {
        match self.column_by_name(name) {
            None => Err(TraceError::MissingColumn(name.to_string())),
            Some(Column::Utf8(v)) => Ok(v),
            Some(_) => Err(TraceError::InvalidColumnType(name.to_string())),
        }
    }
}

}
