//! Verified core of a history import from a Git object store into a
//! changeset store, with the path helpers used to detect directory moves.

pub mod rename;
pub mod ids;
pub mod accumulator;
pub mod scheduler;
pub mod refs;
pub mod changes;
