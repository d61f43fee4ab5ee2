//! What a ledger operation can refuse, and why.

use vstd::prelude::*;

verus! {

/// The broad class an error belongs to.
#[derive(Clone, Copy, Debug, PartialEq, Eq, Structural)]
pub enum ErrorKind {
    /// Something referenced by id or by log position is absent.
    NotFound,
    /// The task is in a state that does not admit the operation.
    InvalidState,
    /// An interval whose end is not after its beginning.
    InvalidRange,
    /// A correction that would break a task's start/stop alternation.
    OrderingViolation,
    /// A ledger-day boundary that has no UTC instant.
    ConfigurationFatal,
}

/// Why an operation was refused. A refused operation changes nothing.
#[derive(Clone, Copy, Debug, PartialEq, Eq, Structural)]
pub enum LedgerError {
    ProjectNotFound,
    CategoryNotFound,
    TaskNotFound,
    /// The log position is past the end of the log, or holds an event of the
    /// other variant.
    EventNotFound,
    TaskArchived,
    TaskAlreadyRunning,
    TaskNotRunning,
    InvalidRange,
    OrderingViolation,
    ConfigurationFatal,
}

impl LedgerError {
    pub open spec fn spec_kind(self) -> ErrorKind {
        match self {
            LedgerError::ProjectNotFound => ErrorKind::NotFound,
            LedgerError::CategoryNotFound => ErrorKind::NotFound,
            LedgerError::TaskNotFound => ErrorKind::NotFound,
            LedgerError::EventNotFound => ErrorKind::NotFound,
            LedgerError::TaskArchived => ErrorKind::InvalidState,
            LedgerError::TaskAlreadyRunning => ErrorKind::InvalidState,
            LedgerError::TaskNotRunning => ErrorKind::InvalidState,
            LedgerError::InvalidRange => ErrorKind::InvalidRange,
            LedgerError::OrderingViolation => ErrorKind::OrderingViolation,
            LedgerError::ConfigurationFatal => ErrorKind::ConfigurationFatal,
        }
    }

    /// The class of this error.
    #[verifier::when_used_as_spec(spec_kind)]
    pub fn kind(self) -> (k: ErrorKind)
        ensures
            k == self.spec_kind(),
    {
        match self {
            LedgerError::ProjectNotFound => ErrorKind::NotFound,
            LedgerError::CategoryNotFound => ErrorKind::NotFound,
            LedgerError::TaskNotFound => ErrorKind::NotFound,
            LedgerError::EventNotFound => ErrorKind::NotFound,
            LedgerError::TaskArchived => ErrorKind::InvalidState,
            LedgerError::TaskAlreadyRunning => ErrorKind::InvalidState,
            LedgerError::TaskNotRunning => ErrorKind::InvalidState,
            LedgerError::InvalidRange => ErrorKind::InvalidRange,
            LedgerError::OrderingViolation => ErrorKind::OrderingViolation,
            LedgerError::ConfigurationFatal => ErrorKind::ConfigurationFatal,
        }
    }
}

} // verus!
