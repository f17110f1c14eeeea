//! Service errors.
//!
//! Two disjoint failure classes exist in the service: contract violations
//! (mismatched lengths, out-of-range parameters), which fail loudly at the
//! call site, and statistically undefined results, which travel as ordinary
//! absent values. `ServiceError` covers the third, outer kind: requests
//! whose data cannot be used at all. Every variant maps to a bad-request
//! response.

use vstd::prelude::*;

verus! {

/// Why a request's data could not be processed.
#[derive(Clone, Copy, Debug, PartialEq, Eq, Structural)]
pub enum ServiceError {
    /// The dataset is empty or contains no usable values.
    Empty,
    /// A not-a-number value appeared where numeric input was expected.
    NaN,
    /// The uploaded tabular input could not be parsed.
    CsvParse,
    /// The tabular input parsed but held no numeric column.
    NoNumeric,
}

impl ServiceError {
    /// The human-readable message of this error.
    pub fn message(&self) -> (r: String)
        ensures
            *self == ServiceError::Empty ==> r@ == "empty dataset"@,
            *self == ServiceError::NaN ==> r@ == "not-a-number encountered"@,
            *self == ServiceError::CsvParse ==> r@ == "failed to parse CSV"@,
            *self == ServiceError::NoNumeric ==> r@ == "no numeric data found in CSV"@,
    {
        match self {
            ServiceError::Empty => "empty dataset".to_owned(),
            ServiceError::NaN => "not-a-number encountered".to_owned(),
            ServiceError::CsvParse => "failed to parse CSV".to_owned(),
            ServiceError::NoNumeric => "no numeric data found in CSV".to_owned(),
        }
    }

    /// The HTTP status every variant maps to: bad request.
    pub fn status_code(&self) -> (r: u16)
        ensures
            r == 400,
    {
        400
    }
}

} // verus!
