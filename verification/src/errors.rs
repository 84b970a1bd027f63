//! Error taxonomy of the library.

use vstd::prelude::*;

verus! {

/// Failure of the scan itself. Transient filesystem trouble is retried and
/// then downgraded to a zero contribution, so the only error a caller can
/// see from the core is a root path that cannot be read at all.
#[derive(Debug, Clone, Copy, PartialEq, Eq, Structural)]
pub enum LingoError {
    InvalidPath,
}

/// Outcome of an operation that can fail with a [`LingoError`].
pub type LingoResult<T> = Result<T, LingoError>;

impl LingoError {
    /// Human-readable description of the error.
    pub fn message(&self) -> (r: String)
        ensures
            r@ == "Could not read path"@,
    {
        String::from_str("Could not read path")
    }
}

} // verus!
