use vstd::prelude::*;

verus! {

/// The failures the analysis itself can signal.
///
/// - `InvariantViolation`: a framing measurement carried a negative
///   length, which indicates a contract breach by the upstream decoder.
/// - `InvalidConfiguration`: a non-positive bucket count was requested
///   for the histogram.
///
/// Decode errors of the underlying byte stream are raised by the decoder,
/// outside this crate, and are never mapped into this type.
#[derive(Clone, Copy, Debug, PartialEq, Eq, Structural)]
pub enum AnalysisError {
    InvariantViolation,
    InvalidConfiguration,
}

impl AnalysisError {
    /// A short, stable description of the error, for embedding in
    /// caller-side error reports.
    pub fn describe(&self) -> (r: &'static str)
        ensures
            *self is InvariantViolation ==> r@ == "negative length in framing measurement"@,
            *self is InvalidConfiguration ==> r@ == "histogram bucket count must be positive"@,
    {
        match self {
            AnalysisError::InvariantViolation => "negative length in framing measurement",
            AnalysisError::InvalidConfiguration => "histogram bucket count must be positive",
        }
    }
}

} // verus!
