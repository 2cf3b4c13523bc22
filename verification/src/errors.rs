use vstd::prelude::*;

verus! {

/// Errors of the engine API.
///
/// `InvalidRange` reports a reporting window whose start period lies after
/// its end period.  `InvalidMetric` exists for programmatic misuse of the
/// metric parser; unknown metric names coming from user input resolve to
/// absent values instead of an error.
#[derive(Clone, Copy, Debug, PartialEq, Eq, Structural)]
pub enum EngineError {
    InvalidRange,
    InvalidMetric,
}

impl EngineError {
    /// A short stable text for each error, for display by the shell.
    pub fn message(&self) -> (r: &'static str)
        ensures
            *self is InvalidRange ==> r@ == "start period is after end period"@,
            *self is InvalidMetric ==> r@ == "unknown metric name"@,
    {
        match self {
            EngineError::InvalidRange => "start period is after end period",
            EngineError::InvalidMetric => "unknown metric name",
        }
    }
}

} // verus!
