//! Verified core of a personal-finance ledger: the transaction entity, its
//! storage-row representation with exact round-tripping, a repository over an
//! abstract durable row store, and the reconciliation engine that merges
//! pending submissions with confirmed snapshots.

pub mod digits;
pub mod amount;
pub mod ids;
pub mod timestamp;
pub mod reconcile;
pub mod repository;
pub mod store;
pub mod transaction;
