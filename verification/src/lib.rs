//! An embedded, append-only, cryptographically chained ledger with a
//! write-ahead log, a snapshot codec, crash recovery, and a workflow
//! transition engine.
//!
//! Records form a hash chain: each carries its payload's digest, the
//! previous record's hash, and one Ed25519 signature per registered
//! signer over its own hash. The storage layer works over byte buffers;
//! file handling lives with the caller.

pub mod append;
pub mod codec;
pub mod config;
pub mod crypto;
pub mod database;
pub mod decimal;
pub mod entity;
pub mod error;
pub mod hexcode;
pub mod ledger;
pub mod persistence;
pub mod reader;
pub mod record;
pub mod recovery;
pub mod user;
pub mod workflow;
pub mod writer;

pub use error::LedgerError;
pub use ledger::Ledger;
pub use record::Record;
pub use user::User;
pub use workflow::Workflow;
pub use workflow::WorkflowState;
