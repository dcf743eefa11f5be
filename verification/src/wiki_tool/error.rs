//! What can go wrong when the tool is called.

use vstd::prelude::*;

use crate::text::concat2;

verus! {

/// Why a call of the tool failed.
#[derive(Debug, PartialEq)]
pub enum ToolError {
    /// A parameter that the call needs is missing or is not a text.
    MissingParameter(String),
    /// A parameter has a value that cannot be used.
    InvalidParameters(String),
    /// The work that was asked for failed.
    ExecutionFailed(String),
}

/// What an error is.
pub enum ErrorView {
    MissingParameter(Seq<char>),
    InvalidParameters(Seq<char>),
    ExecutionFailed(Seq<char>),
}

impl View for ToolError {
    type V = ErrorView;

    open spec fn view(&self) -> ErrorView {
        match self {
            ToolError::MissingParameter(s) => ErrorView::MissingParameter(s@),
            ToolError::InvalidParameters(s) => ErrorView::InvalidParameters(s@),
            ToolError::ExecutionFailed(s) => ErrorView::ExecutionFailed(s@),
        }
    }
}

/// The message of an error.
pub open spec fn error_message(e: ErrorView) -> Seq<char> {
    match e {
        ErrorView::MissingParameter(s) => "Missing parameter: "@ + s,
        ErrorView::InvalidParameters(s) => "Invalid parameters: "@ + s,
        ErrorView::ExecutionFailed(s) => "Execution failed: "@ + s,
    }
}

impl ToolError {
    /// The message of the error.
    pub fn message(&self) -> (r: String)
        ensures
            r@ == error_message(self@),
    {
        match self {
            ToolError::MissingParameter(s) => concat2("Missing parameter: ", s.as_str()),
            ToolError::InvalidParameters(s) => concat2("Invalid parameters: ", s.as_str()),
            ToolError::ExecutionFailed(s) => concat2("Execution failed: ", s.as_str()),
        }
    }
}

/// What the outcome of a call that gives a text is.
pub open spec fn text_outcome(r: Result<String, ToolError>) -> Result<Seq<char>, ErrorView> {
    match r {
        Ok(s) => Ok(s@),
        Err(e) => Err(e@),
    }
}

/// What errors say.
pub proof fn law_errors_say_what_went_wrong(s: Seq<char>)
    ensures
        error_message(ErrorView::MissingParameter(s)) == "Missing parameter: "@ + s,
        error_message(ErrorView::InvalidParameters(s)) == "Invalid parameters: "@ + s,
        error_message(ErrorView::ExecutionFailed(s)) == "Execution failed: "@ + s,
{
}

} // verus!
