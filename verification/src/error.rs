//! The closed set of decode failures.

use vstd::prelude::*;

verus! {

/// Which of the two failure classes a decode error falls in.
///
/// `Incomplete` means the line terminator (`'\r'`) was never found: more
/// bytes could still complete the line.  `Malformed` means the line is
/// structurally invalid and no further bytes could repair it.
#[derive(Clone, Copy, Debug, PartialEq, Eq, Structural)]
pub enum ErrorKind {
    Incomplete,
    Malformed,
}

/// A decode failure: its class together with a human-readable description.
#[derive(Debug)]
pub struct ParserError {
    pub kind: ErrorKind,
    pub data: String,
}

impl ParserError {
    /// A short human-readable account of what went wrong.
    pub fn description(&self) -> (r: &str)
        ensures
            r@ == self.data@,
    {
        self.data.as_str()
    }
}

} // verus!
