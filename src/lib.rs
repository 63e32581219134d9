//! A transactional, versioned key-value state and event store.
//!
//! Clients group writes and deletes into transactions; a commit gives every
//! record it touches the next version of that record, stamps all of them
//! with one fresh commit timestamp, and appends one entry to the event log.

pub mod table;
pub mod types;
pub mod records;
pub mod storage;
pub mod clock;
pub mod memory;
pub mod engine;
pub mod laws;
pub mod layout;
