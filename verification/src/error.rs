//! The error type surfaced by the engine.

use vstd::prelude::*;

verus! {

/// The class of a failure surfaced by the engine.
///
/// `Config` covers a malformed or unsatisfiable configuration, `ExecutePanic`
/// a child process that failed to spawn, failed to wait, or exited non-zero,
/// and `Other` any remaining operating-system error.
#[derive(Clone, Copy, Debug, PartialEq, Eq, Structural)]
pub enum ErrorKind {
    Config,
    Other,
    ExecutePanic,
}

/// An error: a class together with a human-readable message.
#[derive(Clone, Debug)]
pub struct Error {
    pub kind: ErrorKind,
    pub message: String,
}

impl Error {
    /// Build an error of the given class.
    pub fn new(kind: ErrorKind, message: String) -> (r: Error)
        ensures
            r.kind == kind,
            r.message == message,
    {
        Error { kind, message }
    }
}

impl Default for Error {
    fn default() -> (r: Error)
        ensures
            r.kind == ErrorKind::Other,
            r.message@ == Seq::<char>::empty(),
    {
        Error { kind: ErrorKind::Other, message: String::new() }
    }
}

} // verus!
