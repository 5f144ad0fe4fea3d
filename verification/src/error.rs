//! The error type shared by every stage of the scan.

use vstd::prelude::*;

verus! {

/// What went wrong, by broad cause.
#[derive(Debug, Clone, PartialEq, Eq, Structural)]
pub enum ErrorKind {
    AbsPathBufError,
    IoError,
    LorriError,
    NoneError,
    Other,
    SerializationError,
}

/// A fatal scan failure: the whole run aborts, no output is emitted.
#[derive(Debug, Clone)]
pub struct ScanError {
    pub kind: ErrorKind,
    pub msg: String,
}

impl ScanError {
    pub fn new(kind: ErrorKind, msg: String) -> (r: Self)
        ensures
            r.kind == kind,
            r.msg == msg,
    {
        Self { kind, msg }
    }

    pub fn new_from_str(kind: ErrorKind, msg: &str) -> (r: Self)
        ensures
            r.kind == kind,
            r.msg@ == msg@,
    {
        Self { kind, msg: msg.to_owned() }
    }
}

} // verus!
