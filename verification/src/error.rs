//! Error taxonomy of the language implementation.
//!
//! Compile errors carry a human message and, where known, the source line of
//! the offending statement; errors raised during chunk wiring have line 0.

use vstd::prelude::*;
use vstd::string::StringExecFns;

verus! {

/// The broad kind of a reported error.
#[derive(Clone, Copy, PartialEq, Eq, Structural, Debug)]
pub enum ErrorType {
    Parse,
    Compilation,
    IO,
    Runtime,
}

/// An error surfaced to the caller, with a message and a source line
/// (0 when no statement is attributable).
#[derive(Debug, PartialEq, Eq)]
pub struct HissyError {
    pub kind: ErrorType,
    pub message: String,
    pub line: u16,
}

/// Builds a compilation error with no attributed line.
pub fn error(s: String) -> (e: HissyError)
    ensures
        e.kind == ErrorType::Compilation,
        e.message@ == s@,
        e.line == 0,
{
    HissyError { kind: ErrorType::Compilation, message: s, line: 0 }
}

/// Builds a compilation error with no attributed line from a string slice.
pub fn error_str(s: &str) -> (e: HissyError)
    ensures
        e.kind == ErrorType::Compilation,
        e.message@ == s@,
        e.line == 0,
{
    error(String::from_str(s))
}

} // verus!
