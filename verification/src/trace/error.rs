//! Errors of the trace analyses.

use vstd::prelude::*;

use crate::decimal::{dec, usize_to_string};
use crate::text::concat;

verus! {

/// Why an analysis stopped.
#[derive(Debug)]
pub enum TraceError {
    /// An event names a CPU that the trace does not have.
    InvalidCpuId(usize),
    /// A batch lacks a column that the analysis reads.
    MissingColumn(String),
    /// A column that the analysis reads has another type.
    InvalidColumnType(String),
    /// A batch has no timestamps.
    NoTimestamps,
    /// The timestamps of a batch are no 64-bit integers.
    TimestampsNotInt64,
}

/// What an error says.
pub ghost enum TraceErrorView {
    InvalidCpuId(usize),
    MissingColumn(Seq<char>),
    InvalidColumnType(Seq<char>),
    NoTimestamps,
    TimestampsNotInt64,
}

impl View for TraceError {
    type V = TraceErrorView;

    open spec fn view(&self) -> TraceErrorView {
        match *self {
            TraceError::InvalidCpuId(id) => TraceErrorView::InvalidCpuId(id),
            TraceError::MissingColumn(name) => TraceErrorView::MissingColumn(name@),
            TraceError::InvalidColumnType(name) => TraceErrorView::InvalidColumnType(name@),
            TraceError::NoTimestamps => TraceErrorView::NoTimestamps,
            TraceError::TimestampsNotInt64 => TraceErrorView::TimestampsNotInt64,
        }
    }
}

impl TraceErrorView {
    /// The text of an error.
    pub open spec fn text(self) -> Seq<char> {
        match self {
            TraceErrorView::InvalidCpuId(id) => "Invalid CPU ID: "@ + dec(id as nat),
            TraceErrorView::MissingColumn(name) => "Missing "@ + name + " column"@,
            TraceErrorView::InvalidColumnType(name) => "Invalid "@ + name + " column type"@,
            TraceErrorView::NoTimestamps => "timestamp column not found"@,
            TraceErrorView::TimestampsNotInt64 => "timestamp column is not Int64Array"@,
        }
    }
}

impl TraceError {
    /// The text of the error.
    pub fn message(&self) -> (r: String)
        ensures
            r@ == self@.text(),
    {
        match self {
            TraceError::InvalidCpuId(id) => {
                let number = usize_to_string(*id);
                concat("Invalid CPU ID: ", number.as_str())
            },
            TraceError::MissingColumn(name) => {
                let start = concat("Missing ", name.as_str());
                concat(start.as_str(), " column")
            },
            TraceError::InvalidColumnType(name) => {
                let start = concat("Invalid ", name.as_str());
                concat(start.as_str(), " column type")
            },
            TraceError::NoTimestamps => "timestamp column not found".to_string(),
            TraceError::TimestampsNotInt64 => "timestamp column is not Int64Array".to_string(),
        }
    }
}

}
