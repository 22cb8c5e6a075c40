//! A two-party on-ledger messaging library.
//!
//! Each message is a single persistent record keyed by its (sender, recipient)
//! pair, created once by a send operation and read back by a receive operation
//! that only the stored recipient may perform. The host ledger supplies
//! account creation, signature checks and the clock; this crate holds the
//! program's own logic: content validation, the one-record-per-pair state
//! machine, and the fixed persisted layout of a record.

pub mod errors;
pub mod identity;
pub mod layout;
pub mod ledger;
pub mod message;
