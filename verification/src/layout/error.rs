//! Errors of the layout parser.

use vstd::prelude::*;
use crate::read::Position;

verus! {

/// What went wrong while parsing a layout description.
#[derive(PartialEq, Eq, Structural, Clone, Copy, Debug)]
pub enum ErrorKind {
    /// A fixed keyword or delimiter was expected and something else stood
    /// there.
    Syntax,
    /// A value slot held an invalid value, or a parameter list had the
    /// wrong shape.
    Data,
    /// The text ended in the middle of a layout.
    Eof,
}

/// A parse error, carrying the position of the offending symbol.
#[derive(PartialEq, Eq, Structural, Clone, Copy, Debug)]
pub struct Error {
    kind: ErrorKind,
    line: usize,
    column: usize,
}

impl Error {
    /// The kind of error.
    pub fn kind(&self) -> (r: ErrorKind)
        ensures
            r == self.spec_kind(),
    {
        self.kind
    }

    /// One-based line of the offending symbol.
    pub fn line(&self) -> (r: usize)
        ensures
            r == self.spec_line(),
    {
        self.line
    }

    /// One-based column of the offending symbol.
    pub fn column(&self) -> (r: usize)
        ensures
            r == self.spec_column(),
    {
        self.column
    }

    pub closed spec fn spec_kind(&self) -> ErrorKind {
        self.kind
    }

    pub closed spec fn spec_line(&self) -> int {
        self.line as int
    }

    pub closed spec fn spec_column(&self) -> int {
        self.column as int
    }

    pub(crate) fn new(pos: Position, kind: ErrorKind) -> (r: Error)
        ensures
            r.spec_kind() == kind,
            r.spec_line() == pos.line,
            r.spec_column() == pos.column,
    {
        Error { kind, line: pos.line, column: pos.column }
    }
}

} // verus!
