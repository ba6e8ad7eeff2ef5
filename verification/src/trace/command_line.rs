//! What the command line and a trace's metadata decide: the analysis, its output files and the
//! number of CPUs.

use vstd::prelude::*;

use crate::decimal::{parse_usize, parse_usize_of, IntError};
use crate::path::{file_stem, file_stem_of, join, joined, parent, parent_of};
use crate::text::{concat, str_eq};

verus! {

/// An analysis that can be asked for.
#[derive(Debug, Clone, Copy, PartialEq, Eq, Structural)]
pub enum AnalysisType {
    Concurrency,
    Hyperthread,
    Monotonicity,
}

/// Why a trace cannot be analysed.
#[derive(Debug)]
pub enum CommandError {
    /// No analysis has the given name.
    InvalidAnalysisType(String),
    /// The path of the trace names no file.
    InvalidInputFilename,
    /// The trace has no metadata.
    NoMetadata,
    /// The metadata do not give the number of CPUs.
    NoNumCpus,
    /// The metadata give the number of CPUs without a value.
    EmptyNumCpus,
    /// The number of CPUs is no number.
    InvalidNumCpus(IntError),
}

/// What an error says.
pub ghost enum CommandErrorView {
    InvalidAnalysisType(Seq<char>),
    InvalidInputFilename,
    NoMetadata,
    NoNumCpus,
    EmptyNumCpus,
    InvalidNumCpus(IntError),
}

impl View for CommandError {
    type V = CommandErrorView;

    open spec fn view(&self) -> CommandErrorView {
        match *self {
            CommandError::InvalidAnalysisType(name) => CommandErrorView::InvalidAnalysisType(name@),
            CommandError::InvalidInputFilename => CommandErrorView::InvalidInputFilename,
            CommandError::NoMetadata => CommandErrorView::NoMetadata,
            CommandError::NoNumCpus => CommandErrorView::NoNumCpus,
            CommandError::EmptyNumCpus => CommandErrorView::EmptyNumCpus,
            CommandError::InvalidNumCpus(e) => CommandErrorView::InvalidNumCpus(e),
        }
    }
}

impl CommandErrorView {
    /// The text of an error.
    pub open spec fn text(self) -> Seq<char> {
        match self {
            CommandErrorView::InvalidAnalysisType(name) => "Invalid analysis type: "@ + name
                + ". Must be 'concurrency', 'hyperthread', or 'monotonicity'"@,
            CommandErrorView::InvalidInputFilename => "Invalid input filename"@,
            CommandErrorView::NoMetadata => "No key-value metadata found in Parquet file"@,
            CommandErrorView::NoNumCpus => "num_cpus not found in metadata"@,
            CommandErrorView::EmptyNumCpus => "num_cpus value is empty"@,
            CommandErrorView::InvalidNumCpus(_) => "Failed to parse num_cpus as integer"@,
        }
    }
}

impl CommandError {
    /// The text of the error.
    pub fn message(&self) -> (r: String)
        ensures
            r@ == self@.text(),
    {
        match self {
            CommandError::InvalidAnalysisType(name) => {
                let start = concat("Invalid analysis type: ", name.as_str());
                concat(
                    start.as_str(),
                    ". Must be 'concurrency', 'hyperthread', or 'monotonicity'",
                )
            },
            CommandError::InvalidInputFilename => "Invalid input filename".to_string(),
            CommandError::NoMetadata => "No key-value metadata found in Parquet file".to_string(),
            CommandError::NoNumCpus => "num_cpus not found in metadata".to_string(),
            CommandError::EmptyNumCpus => "num_cpus value is empty".to_string(),
            CommandError::InvalidNumCpus(_) => "Failed to parse num_cpus as integer".to_string(),
        }
    }
}

/// The analysis of the given name.
pub open spec fn analysis_named(name: Seq<char>) -> Option<AnalysisType> {
    if name == "concurrency"@ {
        Some(AnalysisType::Concurrency)
    } else if name == "hyperthread"@ {
        Some(AnalysisType::Hyperthread)
    } else if name == "monotonicity"@ {
        Some(AnalysisType::Monotonicity)
    } else {
        None
    }
}

/// The analysis of the given name.
pub fn parse_analysis_type(name: &str) -> (r: Result<AnalysisType, CommandError>)
    ensures
        match analysis_named(name@) {
            Some(t) => r == Ok::<AnalysisType, CommandError>(t),
            None => r is Err && r->Err_0@ == CommandErrorView::InvalidAnalysisType(name@),
        },
{
    if str_eq(name, "concurrency") {
        Ok(AnalysisType::Concurrency)
    } else if str_eq(name, "hyperthread") {
        Ok(AnalysisType::Hyperthread)
    } else if str_eq(name, "monotonicity") {
        Ok(AnalysisType::Monotonicity)
    } else {
        Err(CommandError::InvalidAnalysisType(name.to_string()))
    }
}

/// The name of an output file: the prefix that was asked for, or else the stem of the input's
/// name, an underscore, and an ending.
pub open spec fn output_name(prefix: Option<Seq<char>>, stem: Seq<char>, ending: Seq<char>) -> Seq<
    char,
> {
    (match prefix {
        Some(p) => p,
        None => stem,
    }) + "_"@ + ending
}

/// The path of an output file: beside the input.
pub open spec fn output_path(
    input: Seq<char>,
    prefix: Option<Seq<char>>,
    ending: Seq<char>,
) -> Option<Seq<char>> {
    match file_stem_of(input) {
        None => None,
        Some(stem) => {
            let name = output_name(prefix, stem, ending);
            match parent_of(input) {
                Some(dir) => Some(joined(dir, name)),
                None => Some(name),
            }
        },
    }
}

/// A prefix as a value.
pub open spec fn prefix_view(prefix: Option<&str>) -> Option<Seq<char>> {
    match prefix {
        Some(p) => Some(p@),
        None => None,
    }
}

/// The path of an output file.
fn beside_input(input_path: &str, output_prefix: Option<&str>, ending: &str) -> (r: Result<
    String,
    CommandError,
>)
    ensures
        match output_path(input_path@, prefix_view(output_prefix), ending@) {
            Some(p) => r is Ok && r->Ok_0@ == p,
            None => r is Err && r->Err_0@ == CommandErrorView::InvalidInputFilename,
        },
{
    let stem = match file_stem(input_path) {
        Some(stem) => stem,
        None => {
            return Err(CommandError::InvalidInputFilename);
        },
    };
    let start = match output_prefix {
        Some(p) => concat(p, "_"),
        None => concat(stem.as_str(), "_"),
    };
    let name = concat(start.as_str(), ending);
    match parent(input_path) {
        Some(dir) => Ok(join(dir.as_str(), name.as_str())),
        None => Ok(name),
    }
}

/// The path of the table that an analysis writes.
pub fn determine_output_filename(
    input_path: &str,
    output_prefix: Option<&str>,
    analysis_type: &str,
) -> (r: Result<String, CommandError>)
    ensures
        match output_path(
            input_path@,
            prefix_view(output_prefix),
            analysis_type@ + "_analysis.parquet"@,
        ) {
            Some(p) => r is Ok && r->Ok_0@ == p,
            None => r is Err && r->Err_0@ == CommandErrorView::InvalidInputFilename,
        },
{
    let ending = concat(analysis_type, "_analysis.parquet");
    beside_input(input_path, output_prefix, ending.as_str())
}

/// The path of the statistics that an analysis writes.
pub fn determine_csv_output_filename(
    input_path: &str,
    output_prefix: Option<&str>,
    suffix: &str,
) -> (r: Result<String, CommandError>)
    ensures
        match output_path(input_path@, prefix_view(output_prefix), suffix@ + ".csv"@) {
            Some(p) => r is Ok && r->Ok_0@ == p,
            None => r is Err && r->Err_0@ == CommandErrorView::InvalidInputFilename,
        },
{
    let ending = concat(suffix, ".csv");
    beside_input(input_path, output_prefix, ending.as_str())
}

/// A key of a trace's metadata, with its value where it has one.
#[derive(Debug)]
pub struct KeyValue {
    pub key: String,
    pub value: Option<String>,
}

/// The first entry with the given key.
pub open spec fn entry_of(entries: Seq<KeyValue>, key: Seq<char>) -> Option<KeyValue>
    decreases entries.len(),
{
    if entries.len() == 0 {
        None
    } else if entries[0].key@ == key {
        Some(entries[0])
    } else {
        entry_of(entries.drop_first(), key)
    }
}

/// The number of CPUs that metadata give.
pub open spec fn num_cpus_in(metadata: Option<Seq<KeyValue>>) -> Result<int, CommandErrorView> {
    match metadata {
        None => Err(CommandErrorView::NoMetadata),
        Some(entries) => match entry_of(entries, "num_cpus"@) {
            None => Err(CommandErrorView::NoNumCpus),
            Some(entry) => match entry.value {
                None => Err(CommandErrorView::EmptyNumCpus),
                Some(text) => match parse_usize_of(text@) {
                    Ok(n) => Ok(n),
                    Err(e) => Err(CommandErrorView::InvalidNumCpus(e)),
                },
            },
        },
    }
}

/// The number of CPUs that metadata give.
pub fn num_cpus_from_metadata(metadata: Option<&Vec<KeyValue>>) -> (r: Result<usize, CommandError>)
    ensures
        ({
            let entries = match metadata {
                Some(v) => Some(v@),
                None => None,
            };
            match num_cpus_in(entries) {
                Ok(n) => r is Ok && r->Ok_0 == n,
                Err(e) => r is Err && r->Err_0@ == e,
            }
        }),
{
    let entries = match metadata {
        Some(v) => v,
        None => {
            return Err(CommandError::NoMetadata);
        },
    };
    let mut i: usize = 0;
    assert(entries@.skip(0) =~= entries@);
    while i < entries.len()
        invariant
            i <= entries@.len(),
            metadata == Some(entries),
            entry_of(entries@, "num_cpus"@) == entry_of(entries@.skip(i as int), "num_cpus"@),
        decreases entries.len() - i,
    {
        let ghost rest = entries@.skip(i as int);
        assert(rest[0] == entries@[i as int]);
        if str_eq(entries[i].key.as_str(), "num_cpus") {
            return match &entries[i].value {
                None => Err(CommandError::EmptyNumCpus),
                Some(text) => match parse_usize(text.as_str()) {
                    Ok(n) => Ok(n),
                    Err(e) => Err(CommandError::InvalidNumCpus(e)),
                },
            };
        }
        assert(rest.drop_first() =~= entries@.skip(i as int + 1));
        i = i + 1;
    }
    Err(CommandError::NoNumCpus)
}

}
