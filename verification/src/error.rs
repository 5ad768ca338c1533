//! The ways in which a step of the pipeline fails.

use vstd::prelude::*;

verus! {

/// Why a step of the pipeline gave no result.
#[derive(Clone, Copy, Debug, PartialEq, Eq, Structural)]
pub enum PipelineError {
    /// A page or document could not be fetched.
    Fetch,
    /// A page or document does not have the expected structure.
    Parse,
    /// A provider of storage, images, positions or locations failed.
    Provider,
    /// What was looked for is not there: no image, no date clause, no
    /// position.
    ExtractionNotFound,
}

impl PipelineError {
    /// A short description of the failure.
    pub fn message(&self) -> (r: &'static str)
        ensures
            r@ == match *self {
                PipelineError::Fetch => "fetch failed"@,
                PipelineError::Parse => "unexpected structure"@,
                PipelineError::Provider => "provider failed"@,
                PipelineError::ExtractionNotFound => "nothing found"@,
            },
    {
        match self {
            PipelineError::Fetch => "fetch failed",
            PipelineError::Parse => "unexpected structure",
            PipelineError::Provider => "provider failed",
            PipelineError::ExtractionNotFound => "nothing found",
        }
    }
}

} // verus!
