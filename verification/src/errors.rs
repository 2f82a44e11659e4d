use vstd::prelude::*;
use crate::text::concat_str;

verus! {

/// Errors raised while a chunk runs on the virtual machine.
#[derive(Debug, Clone)]
pub enum RuntimeError {
    NotFound(String),
    TypeError(String),
    InternalError(String),
    ConversionError(String),
    ThreadError(String),
}

/// Errors raised while source code is turned into bytecode.
#[derive(Debug, Clone)]
pub enum CompileError {
    NotFound(String),
    TypeError(String),
    InternalError(String),
    ConversionError(String),
}

impl RuntimeError {
    /// The human-readable text of the error: a category label, a colon and the detail.
    pub open spec fn spec_message(&self) -> Seq<char> {
        match self {
            RuntimeError::NotFound(m) => "Not Found: "@ + m@,
            RuntimeError::TypeError(m) => "Type Error: "@ + m@,
            RuntimeError::InternalError(m) => "Internal Error: "@ + m@,
            RuntimeError::ConversionError(m) => "Conversion Error: "@ + m@,
            RuntimeError::ThreadError(m) => "Thread Error: "@ + m@,
        }
    }

    pub fn message(&self) -> (s: String)
        ensures
            s@ == self.spec_message(),
    {
        match self {
            RuntimeError::NotFound(m) => concat_str("Not Found: ", m.as_str()),
            RuntimeError::TypeError(m) => concat_str("Type Error: ", m.as_str()),
            RuntimeError::InternalError(m) => concat_str("Internal Error: ", m.as_str()),
            RuntimeError::ConversionError(m) => concat_str("Conversion Error: ", m.as_str()),
            RuntimeError::ThreadError(m) => concat_str("Thread Error: ", m.as_str()),
        }
    }
}

impl CompileError {
    /// The human-readable text of the error: a category label, a colon and the detail.
    pub open spec fn spec_message(&self) -> Seq<char> {
        match self {
            CompileError::NotFound(m) => "Not Found: "@ + m@,
            CompileError::TypeError(m) => "Type Error: "@ + m@,
            CompileError::InternalError(m) => "Internal Error: "@ + m@,
            CompileError::ConversionError(m) => "Conversion Error: "@ + m@,
        }
    }

    pub fn message(&self) -> (s: String)
        ensures
            s@ == self.spec_message(),
    {
        match self {
            CompileError::NotFound(m) => concat_str("Not Found: ", m.as_str()),
            CompileError::TypeError(m) => concat_str("Type Error: ", m.as_str()),
            CompileError::InternalError(m) => concat_str("Internal Error: ", m.as_str()),
            CompileError::ConversionError(m) => concat_str("Conversion Error: ", m.as_str()),
        }
    }
}

} // verus!
