//! Load-time errors of the program parser.

use vstd::prelude::*;

verus! {

/// A fatal error while loading a program, with the line and column it was
/// found at.
#[derive(Copy, Clone, PartialEq, Eq, Debug, Hash, Structural)]
pub struct ParseError {
    pub line: usize,
    pub column: usize,
    pub kind: ParseErrorKind,
}

/// The kinds of load-time error.
#[derive(Copy, Clone, PartialEq, Eq, Debug, Hash, Structural)]
pub enum ParseErrorKind {
    /// The line has no `:` separating the cell prefix from the code.
    InvalidPrefixError,
    /// The text after `-` names no direction.
    BadDirectionError,
    /// A character names no tile species, or the address is impossible.
    BadCoordinateError,
}

} // verus!
