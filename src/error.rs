//! The two ways a tool call fails, and an unknown tool.
use vstd::prelude::*;

verus! {

/// Why a tool call did not complete.
#[derive(Debug)]
pub enum ToolError {
    /// The caller's input is malformed, out of range or incomplete.
    InvalidParameters(String),
    /// The input was valid but the operation could not complete.
    ExecutionError(String),
    /// No tool of that name.
    NotFound(String),
}

impl ToolError {
    /// The message the error carries.
    pub open spec fn text(&self) -> Seq<char> {
        match self {
            ToolError::InvalidParameters(m) => m@,
            ToolError::ExecutionError(m) => m@,
            ToolError::NotFound(m) => m@,
        }
    }

    /// The message the error carries.
    pub fn message(&self) -> (r: &String)
        ensures
            r@ == self.text(),
    {
        match self {
            ToolError::InvalidParameters(m) => m,
            ToolError::ExecutionError(m) => m,
            ToolError::NotFound(m) => m,
        }
    }
}

} // verus!
