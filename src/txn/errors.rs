use vstd::prelude::*;

verus! {

/// Outcomes of a transaction that did not commit.
#[derive(Debug, PartialEq, Eq)]
pub enum TxnErrorType {
    /// The attempt conflicted with another transaction and may be retried.
    Retry,
    /// The transaction was rolled back at its caller's request.
    Abort,
    /// A retryable failure, with a description.
    RetryWithContext(String),
    /// A rollback, with a description.
    AbortWithContext(String),
    /// The requested concurrency and isolation combination is not provided.
    NotImplemented,
}

} // verus!
