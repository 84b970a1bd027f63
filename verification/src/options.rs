//! The inputs the engine needs from the command line.

use vstd::prelude::*;

verus! {

/// A run's configuration: where to scan, the sampled date range, the
/// branch to move through history on, and the chart title.
///
/// Dates are `YYYY-MM-DD` strings; `end` defaults to the current date
/// when absent. Parsing and validation happen at the edge; the engine
/// itself works on day numbers.
#[derive(Debug, Clone)]
pub struct Options {
    /// Directory to evaluate.
    pub path: String,
    /// Start date from which to analyse.
    pub start: String,
    /// Last date to use for analysis.
    pub end: Option<String>,
    /// The branch which to analyse.
    pub branch: String,
    /// The name of the repository.
    pub name: String,
}

} // verus!
