//! What the analyses have in common: the output and its columns.

use vstd::prelude::*;

use crate::schema::{extended, field_views, Field};

verus! {

/// Rows per batch that is read.
pub const READER_BATCH_SIZE: usize = 32768;

/// Analyzer that runs an analysis on a table and writes the table with the columns that the
/// analysis adds.
pub struct Analyzer {
    pub output_filename: String,
}

impl Analyzer {
    /// An analyzer that writes to the given file.
    pub fn new(output_filename: String) -> (r: Analyzer)
        ensures
            r.output_filename == output_filename,
    {
        Analyzer { output_filename }
    }

    /// The columns of the output: those of the input, followed by those of the analysis.
    pub fn create_output_schema(&self, input: &Vec<Field>, added: Vec<Field>) -> (r: Vec<Field>)
        ensures
            field_views(r@) == field_views(input@) + field_views(added@),
    {
        extended(input, added)
    }

    /// The values of the output's columns: those of the input, followed by those of the analysis.
    pub fn output_columns<C>(&self, input: Vec<C>, added: Vec<C>) -> (r: Vec<C>)
        ensures
            r@ == input@ + added@,
    {
        let mut columns = input;
        let mut more = added;
        columns.append(&mut more);
        columns
    }
}

}
