//! The ways in which a lookup ends without a table.

use vstd::prelude::*;

verus! {

/// Why a lookup gave no table. Each ends the lookup; none is retried.
#[derive(Clone, Copy, Debug, PartialEq, Eq, Structural)]
pub enum LookupError {
    /// The input resolves to no part code.
    InvalidInput,
    /// The vendor could not be reached.
    Network,
    /// The vendor answered with a status outside 200..=299.
    HttpStatus,
    /// The body of the answer is not JSON.
    MalformedResponse,
    /// The vendor knows no such part.
    NotFound,
}

impl LookupError {
    /// A short description of the error.
    pub fn message(&self) -> (r: &'static str)
        ensures
            r@ == match *self {
                LookupError::InvalidInput => "input is not a part code or a known part URL"@,
                LookupError::Network => "the vendor could not be reached"@,
                LookupError::HttpStatus => "the vendor answered with an error status"@,
                LookupError::MalformedResponse => "the vendor's answer is not valid JSON"@,
                LookupError::NotFound => "no such part"@,
            },
    {
        match self {
            LookupError::InvalidInput => "input is not a part code or a known part URL",
            LookupError::Network => "the vendor could not be reached",
            LookupError::HttpStatus => "the vendor answered with an error status",
            LookupError::MalformedResponse => "the vendor's answer is not valid JSON",
            LookupError::NotFound => "no such part",
        }
    }
}

} // verus!
