//! The single failure the library can report.

use vstd::prelude::*;
use vstd::string::StringExecFns;

verus! {

/// The input could not be read as a MAC address. Carries no further detail.
#[derive(Clone, Copy, Debug, PartialEq, Eq, Structural)]
pub struct ParseError;

impl ParseError {
    /// The fixed human-readable message of this error.
    pub fn to_string(&self) -> (r: String)
        ensures
            r@ == "ParseError: Could not parse mac address."@,
    {
        String::from_str("ParseError: Could not parse mac address.")
    }
}

} // verus!
