//! The pipeline's error taxonomy. Every fatal condition aborts the
//! current run only: the caller reports the diagnostic and returns to
//! its menu.

use vstd::prelude::*;

verus! {

#[derive(Clone, Copy, PartialEq, Eq, Structural, Debug)]
pub enum PipeError {
    /// The quote payload is malformed or lacks the daily series key.
    MissingSeries,
    /// The export file (or another required file) could not be written.
    Io,
    /// The external predictor exited with a non-zero status.
    PredictorFailed,
    /// The predictor's result file is missing or not valid structured
    /// data.
    ResultUnreadable,
    /// The history row could not be persisted.
    StoreWrite,
}

/// The diagnostic text of each error.
pub open spec fn spec_message(e: PipeError) -> Seq<char> {
    match e {
        PipeError::MissingSeries => "Error: response is missing 'Time Series (Daily)'."@,
        PipeError::Io => "Error: could not write a required file."@,
        PipeError::PredictorFailed => "Error: prediction script failed."@,
        PipeError::ResultUnreadable => "Error: could not read prediction output."@,
        PipeError::StoreWrite => "Error: could not save analysis to the database."@,
    }
}

impl PipeError {
    /// The user-visible diagnostic for this error.
    pub fn message(&self) -> (r: &'static str)
        ensures
            r@ == spec_message(*self),
    {
        match self {
            PipeError::MissingSeries => "Error: response is missing 'Time Series (Daily)'.",
            PipeError::Io => "Error: could not write a required file.",
            PipeError::PredictorFailed => "Error: prediction script failed.",
            PipeError::ResultUnreadable => "Error: could not read prediction output.",
            PipeError::StoreWrite => "Error: could not save analysis to the database.",
        }
    }
}

} // verus!
