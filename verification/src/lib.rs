//! Core coordination library for a file-backed table store.
//!
//! The crate arbitrates concurrent access to a set of named tabular stores:
//! a lock arbiter grants per-key exclusive locks in request order, a store
//! cache keeps loaded tables in memory until a time-to-live or time-to-idle
//! bound elapses, and a managed store handle couples a lock with a loaded
//! table so that every mutation is persisted under that lock.

pub mod accounts;
pub mod arbiter;
pub mod cache;
pub mod config;
pub mod error;
pub mod handle;
pub mod keyed;
pub mod manager;
pub mod messages;
pub mod storage;
pub mod table;

pub use table::Table;
