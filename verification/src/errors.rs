use vstd::prelude::*;

verus! {

/// The fatal error classes of the pipeline.  Every fatal condition aborts
/// the whole run; the caller decides how to surface it.
#[derive(Clone, Copy, PartialEq, Eq, Structural, Debug)]
pub enum PipelineError {
    /// A bad zoom level, flag list or bounding-box string: rejected before
    /// any network activity.
    Configuration,
    /// Fetched data does not match the expected schema: a missing or
    /// malformed property, or a geometry of an unexpected kind.
    DataIntegrity,
}

impl PipelineError {
    /// A short label for reports written by unverified callers.
    pub fn label(&self) -> (r: &'static str)
        ensures
            *self is Configuration ==> r@ == "ConfigurationError"@,
            *self is DataIntegrity ==> r@ == "DataIntegrityError"@,
    {
        match self {
            PipelineError::Configuration => "ConfigurationError",
            PipelineError::DataIntegrity => "DataIntegrityError",
        }
    }
}

} // verus!
