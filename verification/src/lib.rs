//! A minimal in-memory key-value cache built on an append-only record log.
//!
//! Every write appends one self-describing record to a growing byte log, and
//! an index remembers, for each key, the byte range of its latest record.
//! Reads slice the log at that range, check the record's expiration and hand
//! the value back as text.

pub mod clock;
pub mod db;
pub mod expiry;
pub mod laws;
pub mod little_endian;
pub mod model;
pub mod record;
pub mod span;
pub mod text;
