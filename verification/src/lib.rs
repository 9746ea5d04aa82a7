//! A single replica of a replicated set of strings: every operation that
//! changes the replica's data is recorded in an operation log, so that the
//! log alone is enough to rebuild the data.

pub mod log;
pub mod node;
pub mod cluster;
pub mod keys;
