//! Error taxonomy of the engine. Every condition reachable from external,
//! untrusted input is reported as a recoverable error value, never as a
//! process abort.

use vstd::prelude::*;
use vstd::string::StringExecFns;

verus! {

/// Malformed `Version` text: the input did not consist of exactly three
/// dot-separated integer components.
#[derive(Debug, Clone, Copy, PartialEq, Eq, Structural)]
pub struct ParseError {}

impl ParseError {
    /// A human-readable description of the failure.
    pub fn message(&self) -> (r: String)
        ensures
            r@ == "must be in the format major.minor.patch where each component is an integer"@,
    {
        String::from_str("must be in the format major.minor.patch where each component is an integer")
    }
}

/// No baselines were available to select from: a deployment or configuration
/// problem that the caller should report cleanly.
#[derive(Debug, Clone, Copy, PartialEq, Eq, Structural)]
pub struct ConfigurationError {}

impl ConfigurationError {
    /// A human-readable description of the failure.
    pub fn message(&self) -> (r: String)
        ensures
            r@ == "no baselines found"@,
    {
        String::from_str("no baselines found")
    }
}

/// A `Sample` was constructed from a `Measurement` whose raw-timings
/// collection did not hold exactly one element.
#[derive(Debug, Clone, Copy, PartialEq, Eq, Structural)]
pub struct MalformedMeasurementError {
    /// How many raw timings the offending measurement held.
    pub times_len: usize,
}

impl MalformedMeasurementError {
    /// A human-readable description of the failure.
    pub fn message(&self) -> (r: String)
        ensures
            self.times_len == 0 ==> r@ == "found a sample with no measurement"@,
            self.times_len != 0 ==> r@ == "found a sample with too many measurements"@,
    {
        if self.times_len == 0 {
            String::from_str("found a sample with no measurement")
        } else {
            String::from_str("found a sample with too many measurements")
        }
    }
}

/// Umbrella error of the orchestration entry point.
#[derive(Debug, Clone, PartialEq, Eq)]
pub enum CalculateError {
    /// Malformed `Version` text.
    Parse(ParseError),
    /// No baselines available to select from.
    Configuration(ConfigurationError),
    /// A sample was built from a malformed measurement.
    MalformedMeasurement(MalformedMeasurementError),
    /// A failure bubbled up, opaque, from the baseline-loading or sampling
    /// collaborators that run outside this engine.
    Collaborator(String),
}

} // verus!
