//! Request selectors and small response shapes shared with the service
//! layer.
//!
//! The enums are the named method selectors of the API; each carries the
//! default the service relies on when a request omits it. The service layer
//! keeps mirror types with its serialization derives and converts at the
//! boundary.

use vstd::prelude::*;
use crate::error::ServiceError;

verus! {

/// Body of an error response.
#[derive(Clone, Debug)]
pub struct ErrorResponse {
    /// Short machine-readable code.
    pub code: String,
    /// Human-readable message.
    pub message: String,
}

impl ErrorResponse {
    /// The response body for a service error: a stable code and the error's
    /// message.
    pub fn from_error(e: &ServiceError) -> (r: ErrorResponse)
        ensures
            *e == ServiceError::Empty ==> r.code@ == "empty"@ && r.message@ == "empty dataset"@,
            *e == ServiceError::NaN ==> r.code@ == "nan"@ && r.message@
                == "not-a-number encountered"@,
            *e == ServiceError::CsvParse ==> r.code@ == "csv_parse"@ && r.message@
                == "failed to parse CSV"@,
            *e == ServiceError::NoNumeric ==> r.code@ == "no_numeric"@ && r.message@
                == "no numeric data found in CSV"@,
    {
        let code = match e {
            ServiceError::Empty => "empty".to_owned(),
            ServiceError::NaN => "nan".to_owned(),
            ServiceError::CsvParse => "csv_parse".to_owned(),
            ServiceError::NoNumeric => "no_numeric".to_owned(),
        };
        ErrorResponse { code, message: e.message() }
    }
}

/// Correlation method selector.
#[derive(Clone, Copy, Debug, PartialEq, Eq, Structural)]
pub enum CorrMethod {
    /// Pearson correlation (linear).
    Pearson,
    /// Spearman rank correlation.
    Spearman,
    /// Kendall rank correlation.
    Kendall,
}

impl Default for CorrMethod {
    /// The correlation method defaults to the linear one.
    fn default() -> (r: Self)
        ensures
            r == CorrMethod::Pearson,
    {
        CorrMethod::Pearson
    }
}

/// Outlier detection method selector.
#[derive(Clone, Copy, Debug, PartialEq, Eq, Structural)]
pub enum OutlierMethod {
    /// Z-score thresholding.
    Zscore,
    /// Interquartile-range rule.
    Iqr,
}

impl Default for OutlierMethod {
    /// Outlier detection defaults to the interquartile-range rule.
    fn default() -> (r: Self)
        ensures
            r == OutlierMethod::Iqr,
    {
        OutlierMethod::Iqr
    }
}

/// Normalization method selector.
#[derive(Clone, Copy, Debug, PartialEq, Eq, Structural)]
pub enum NormMethod {
    /// Standard-score normalization.
    Zscore,
    /// Min-max scaling to a range.
    Minmax,
}

impl Default for NormMethod {
    /// Normalization defaults to the standard score.
    fn default() -> (r: Self)
        ensures
            r == NormMethod::Zscore,
    {
        NormMethod::Zscore
    }
}

/// The bin count a binning rule chose.
#[derive(Clone, Copy, Debug, PartialEq, Eq, Structural)]
pub struct BinRuleOut {
    /// Number of histogram bins.
    pub bins: usize,
}

} // verus!
