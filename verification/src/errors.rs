//! The shared error vocabulary of the prover and verifier runtimes.

use vstd::prelude::*;

verus! {

/// Why a proving or verification step could not complete.
#[derive(Clone, Copy, Debug, PartialEq, Eq)]
pub enum ProveError {
    /// A bounded search (or a whole proof attempt) found no accepting
    /// candidate; the caller may retry with fresh randomness.
    RetryNeeded,
    /// A structural precondition was violated: wrong phase, wrong count,
    /// truncated bytes. Not retryable.
    Malformed(&'static str),
    /// The chosen parameters do not meet the soundness inequality; they
    /// must be fixed by the protocol designer, never retried.
    UnsoundParams(&'static str),
}

/// The result type used by every fallible operation of the crate.
pub type ProveResult<T> = Result<T, ProveError>;

impl ProveError {
    /// True exactly on the retryable variant.
    pub fn is_retry_needed(&self) -> (r: bool)
        ensures
            r == (*self is RetryNeeded),
    {
        match self {
            ProveError::RetryNeeded => true,
            _ => false,
        }
    }
}

} // verus!
