//! What can go wrong while a corpus is loaded and a source is built from it.

use vstd::prelude::*;
use vstd::string::StringExecFns;

verus! {

/// The failures of the wind loads builder and source.
#[derive(Debug, PartialEq, Eq)]
pub enum WindLoadsError {
    /// No channel of the corpus is populated, so there is no sample count.
    Len,
    /// No populated channel of the corpus goes by the requested tag.
    Empty,
    /// The data file could not be opened; holds the cause.
    FileNotFound(String),
    /// The data file could not be decoded; holds the cause.
    PickleRead(String),
    /// The source could not produce its outputs.
    Outputs,
    /// The source was handed inputs, and it takes none.
    Inputs,
    /// The requested sample count is zero or exceeds a channel's length.
    InvalidSampleCount,
}

impl WindLoadsError {
    /// The text of [`message`](Self::message).
    pub open spec fn text(&self) -> Seq<char> {
        match self {
            WindLoadsError::Len => "couldn't get the number of sample in the time series"@,
            WindLoadsError::Empty => "no data available"@,
            WindLoadsError::FileNotFound(cause) => "wind loads data file not found: "@ + cause@,
            WindLoadsError::PickleRead(cause) => "cannot read wind loads data file: "@ + cause@,
            WindLoadsError::Outputs => ""@,
            WindLoadsError::Inputs => "WindLoading takes no inputs"@,
            WindLoadsError::InvalidSampleCount =>
                "n_sample must be greater than 0 and no greater than the number of sample"@,
        }
    }

    /// A description of the failure for people to read.
    pub fn message(&self) -> (text: String)
        ensures
            text@ == self.text(),
    {
        match self {
            WindLoadsError::Len => String::from_str(
                "couldn't get the number of sample in the time series",
            ),
            WindLoadsError::Empty => String::from_str("no data available"),
            WindLoadsError::FileNotFound(cause) => String::from_str(
                "wind loads data file not found: ",
            ).concat(cause.as_str()),
            WindLoadsError::PickleRead(cause) => String::from_str(
                "cannot read wind loads data file: ",
            ).concat(cause.as_str()),
            WindLoadsError::Outputs => String::from_str(""),
            WindLoadsError::Inputs => String::from_str("WindLoading takes no inputs"),
            WindLoadsError::InvalidSampleCount => String::from_str(
                "n_sample must be greater than 0 and no greater than the number of sample",
            ),
        }
    }
}

} // verus!
