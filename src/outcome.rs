use vstd::prelude::*;

verus! {

/// The concurrency bound handed to a runner was below one.
#[derive(Debug, Clone, Copy, PartialEq, Eq, Structural)]
pub struct ConfigError {
    /// The bound that was refused.
    pub max_concurrency: i64,
}

/// What became of one key of a batch.
#[derive(Debug, Clone)]
pub enum QueryOutcome<T, E> {
    /// The executor returned an item for the key.
    Success { key: String, item: T },
    /// The executor failed for the key.
    Failure { key: String, error: E },
    /// The key was never attempted, or its query was abandoned, after cancellation.
    Cancelled { key: String },
}

/// The outcome that an executor result for `key` is recorded as.
pub open spec fn outcome_of<T, E>(key: String, result: Result<T, E>) -> QueryOutcome<T, E> {
    match result {
        Ok(item) => QueryOutcome::Success { key, item },
        Err(error) => QueryOutcome::Failure { key, error },
    }
}

impl<T, E> QueryOutcome<T, E> {
    /// The key this outcome belongs to.
    pub open spec fn key_of(&self) -> String {
        match self {
            QueryOutcome::Success { key, .. } => *key,
            QueryOutcome::Failure { key, .. } => *key,
            QueryOutcome::Cancelled { key } => *key,
        }
    }

    /// Records an executor result for `key`.
    pub fn from_result(key: String, result: Result<T, E>) -> (r: Self)
        ensures
            r == outcome_of(key, result),
    {
        match result {
            Ok(item) => QueryOutcome::Success { key, item },
            Err(error) => QueryOutcome::Failure { key, error },
        }
    }

    pub fn key(&self) -> (r: &String)
        ensures
            *r == self.key_of(),
    {
        match self {
            QueryOutcome::Success { key, .. } => key,
            QueryOutcome::Failure { key, .. } => key,
            QueryOutcome::Cancelled { key } => key,
        }
    }

    pub fn is_success(&self) -> (r: bool)
        ensures
            r == (self is Success),
    {
        matches!(self, QueryOutcome::Success { .. })
    }

    pub fn is_failure(&self) -> (r: bool)
        ensures
            r == (self is Failure),
    {
        matches!(self, QueryOutcome::Failure { .. })
    }

    pub fn is_cancelled(&self) -> (r: bool)
        ensures
            r == (self is Cancelled),
    {
        matches!(self, QueryOutcome::Cancelled { .. })
    }
}

} // verus!
