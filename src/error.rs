//! The error that every failed read reports.
use vstd::prelude::*;

verus! {

/// What went wrong.
#[derive(Clone, Copy, Debug, PartialEq, Eq, Structural)]
pub enum ErrorKind {
    /// A read asked for more bytes than remain.
    OutOfBounds,
    /// The underlying source failed, or ended before a read was filled.
    Io,
    /// The bytes are not valid UTF-8 or UTF-16.
    InvalidEncoding,
    /// A seek would leave the data.
    InvalidSeek,
}

/// A failed read: its kind and a message for people.
#[derive(Clone, Copy, Debug)]
pub struct BinError {
    pub kind: ErrorKind,
    pub message: &'static str,
}

impl BinError {
    pub fn new(kind: ErrorKind, message: &'static str) -> (r: BinError)
        ensures
            r.kind == kind,
            r.message == message,
    {
        BinError { kind, message }
    }

    pub fn kind(&self) -> (r: ErrorKind)
        ensures
            r == self.kind,
    {
        self.kind
    }

    pub fn message(&self) -> (r: &'static str)
        ensures
            r == self.message,
    {
        self.message
    }
}

} // verus!
