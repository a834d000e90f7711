//! Error taxonomy of the library. Each variant is a machine-readable kind,
//! some carrying a diagnostic string.

use vstd::prelude::*;

verus! {

/// Errors raised by the in-memory ledger.
#[derive(Debug, Clone, PartialEq, Eq)]
pub enum LedgerError {
    UnregisteredUser,
    AlreadyRegistered,
    RecordAccessFailed,
    EmptyPayload,
    ChainValidation(String),
    ClockError(String),
    NoSigners,
    DuplicateRecord,
    InvalidTimestamp,
}

/// Errors raised by the workflow engine.
#[derive(Debug, Clone, PartialEq, Eq)]
pub enum WorkflowError {
    Definition(String),
    Validation(String),
    Parsing(String),
}

/// Errors raised by the entity tracker.
#[derive(Debug, Clone, PartialEq, Eq)]
pub enum EntityError {
    Update(String),
}

/// Errors raised by the storage layer.
#[derive(Debug, Clone, PartialEq, Eq)]
pub enum StorageError {
    Io(String),
    InvalidMagic,
    UnsupportedVersion(u8, u8),
    Serialization(String),
    Deserialization(String),
    ChecksumMismatch,
    ValidationFailed(String),
}

} // verus!
