//! Change-feed core of a transactional database.
//!
//! Every record-level mutation made inside a committed transaction is
//! persisted as an ordered, replayable log keyed by a monotonically
//! increasing 10-byte versionstamp.  Consumers read the log from an
//! arbitrary point and garbage-collect entries older than a watermark.

pub mod cf;
pub mod ctx;
pub mod dbs;
pub mod err;
pub mod fnc;
pub mod key;
pub mod kvs;
pub mod oracle;
pub mod sql;
pub mod text;
pub mod vs;

pub use vs::Versionstamp;
