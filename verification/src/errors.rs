//! Error taxonomy: storage errors, sink errors naming the offending
//! endpoint, per-delta aggregation errors, and window translation errors.

use vstd::prelude::*;

verus! {

/// Errors of the cache/storage layer.
#[derive(Debug)]
pub enum CacheError {
    /// No entry under the requested key or identifier.
    NotFound,
    /// An insert found an existing entry under the record's primary key.
    DuplicateKey,
}

impl CacheError {
    /// Short description, for callers that render errors.
    pub fn describe(&self) -> (r: &'static str)
        ensures
            r@ == match self {
                CacheError::NotFound => "key not found"@,
                CacheError::DuplicateKey => "duplicate primary key"@,
            },
    {
        match self {
            CacheError::NotFound => "key not found",
            CacheError::DuplicateKey => "duplicate primary key",
        }
    }
}

/// Sink-level failures; each names the endpoint it happened on and wraps
/// the storage error that caused it.
#[derive(Debug)]
pub enum SinkError {
    CacheOpenFailed { endpoint: String, source: CacheError },
    CacheCreateFailed { endpoint: String, source: CacheError },
    CacheCreateAliasFailed { alias: String, real_name: String, source: CacheError },
    CacheInsertFailed { endpoint: String, source: CacheError },
    CacheUpdateFailed { endpoint: String, source: CacheError },
    CacheDeleteFailed { endpoint: String, source: CacheError },
    CacheCountFailed { endpoint: String, source: CacheError },
    CacheCommitTransactionFailed { endpoint: String, source: CacheError },
}

/// Failures surfaced to the executor driving the pipeline.
#[derive(Debug)]
pub enum ExecutionError {
    /// A primary key was configured that conflicts with the key computed
    /// upstream; carries the endpoint and both keys' column names.
    MismatchPrimaryKey { endpoint_name: String, expected: Vec<String>, actual: Vec<String> },
    /// A configured primary-key column name does not exist in the schema.
    FieldNotFound(String),
    /// A sink was driven before its schema was initialized.
    SchemaNotInitialized,
    /// A storage failure, wrapped with its sink context.
    SinkError(SinkError),
    /// The notification channel was full: backpressure is a hard error,
    /// not a silent drop.
    NotificationChannelFull,
}

/// Per-delta failures of the aggregation operator.
#[derive(Clone, Copy, PartialEq, Eq, Structural, Debug)]
pub enum AggregationError {
    /// The measure value's type does not fit the aggregate function.
    TypeMismatch,
    /// The accumulator left the numeric range of the aggregate's type.
    Overflow,
}

/// Failures of the window operator's assignment function.
#[derive(Clone, Copy, PartialEq, Eq, Structural, Debug)]
pub enum WindowError {
    /// The windowing column is out of bounds for the record.
    InvalidColumn,
    /// The windowing column does not hold a timestamp.
    TypeMismatch,
    /// Window bounds would leave the timestamp range.
    RangeOverflow,
    /// The window parameters are unusable (zero interval or hop).
    InvalidInterval,
}

/// Errors of the pipeline-state front end.
#[derive(Clone, Copy, PartialEq, Eq, Structural, Debug)]
pub enum AppUIError {
    /// No orchestrator, or no contract, has been built yet.
    NotInitialized,
}

} // verus!
