//! Snapshot synchronisation for a three-level dataset of places, services
//! and arguments: wholesale replacement of the stored dataset by a submitted
//! snapshot, and reconstruction of the snapshot from the three stored tables.
//!
//! The crate performs no I/O. It turns a snapshot into the statements that
//! replace the stored data, sequences them inside one transaction, and
//! reassembles a snapshot from the rows that storage hands back. A store
//! held in memory says what those statements do, and the laws of the
//! writer and the reader are proved against it.

pub mod error;
pub mod flatten;
pub mod laws;
pub mod model;
pub mod nesting;
pub mod order;
pub mod plan;
pub mod reader;
pub mod reconstruct;
pub mod rows;
pub mod sql;
pub mod sqlite;
pub mod store;
pub mod transaction;
pub mod validate;
pub mod writer;
