//! The ways in which the service fails, and how each failure is surfaced.

use vstd::prelude::*;

verus! {

/// A failure of the service.
#[derive(Clone, Copy, Debug, PartialEq, Eq, Structural)]
pub enum ServiceError {
    /// The first connections to the store could not be established.
    StartupFailure,
    /// Every connection the pool may hold is out on lease.
    PoolExhausted,
    /// The store could not be reached, or did not answer the query properly.
    StoreUnavailable,
}

impl ServiceError {
    /// Whether the failure ends the process. Only a failure to start does:
    /// every other failure is confined to the request that met it.
    pub open spec fn fatal(self) -> bool {
        self is StartupFailure
    }

    /// The HTTP status that reports the failure. It is always a server error.
    pub open spec fn status_code(self) -> u16 {
        match self {
            ServiceError::StartupFailure => 500,
            ServiceError::PoolExhausted => 503,
            ServiceError::StoreUnavailable => 502,
        }
    }

    /// A short description of the failure, for an error body or a log line.
    pub open spec fn description(self) -> Seq<char> {
        match self {
            ServiceError::StartupFailure => "cannot establish the connection pool"@,
            ServiceError::PoolExhausted => "connection pool exhausted"@,
            ServiceError::StoreUnavailable => "store unavailable"@,
        }
    }

    pub fn is_fatal(&self) -> (fatal: bool)
        ensures
            fatal == self.fatal(),
    {
        match self {
            ServiceError::StartupFailure => true,
            _ => false,
        }
    }

    pub fn status(&self) -> (code: u16)
        ensures
            code == self.status_code(),
            500 <= code < 600,
    {
        match self {
            ServiceError::StartupFailure => 500,
            ServiceError::PoolExhausted => 503,
            ServiceError::StoreUnavailable => 502,
        }
    }

    pub fn message(&self) -> (text: String)
        ensures
            text@ == self.description(),
    {
        match self {
            ServiceError::StartupFailure => String::from_str("cannot establish the connection pool"),
            ServiceError::PoolExhausted => String::from_str("connection pool exhausted"),
            ServiceError::StoreUnavailable => String::from_str("store unavailable"),
        }
    }
}

} // verus!
