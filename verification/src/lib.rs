//! A reader-writer shared cache demonstration library.
//!
//! The heart of the library is [`cache::ThreadSafeCache`], a string key-value
//! store meant to sit behind a reader-writer lock: many concurrent readers or
//! one exclusive writer. The store's operations are verified against a map
//! model. The lock discipline itself is captured by [`lock::RwLockState`], a
//! verified model of the shared/exclusive access protocol, whose mutual
//! exclusion invariant every transition preserves.

pub mod cache;
pub mod lock;
pub mod sum;
