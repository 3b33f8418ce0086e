//! A minimal durable key-value store: an in-memory index backed by an
//! append-only text log, so state survives restarts.
//!
//! The log holds one record per line, `SET key value` or `DEL key`.
//! Replaying a log folds its well-formed lines, in file order, into a
//! mapping with last-write-wins semantics; malformed lines are skipped.
//! A [`kv_store::KvStore`] keeps the invariant that its in-memory mapping
//! always equals the replay of the log lines recorded so far.
//!
//! The store itself performs no I/O: a caller appends each record line
//! durably before committing it to the store, and reads an existing log
//! into lines before replaying it.

pub mod kv_store;
pub mod laws;
pub mod log;
