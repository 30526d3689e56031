//! An in-memory key-value store with transactional overlays: a transaction
//! buffers writes and deletions over a base store and either merges them
//! back in one batch on commit or leaves the base untouched.
pub mod database;
pub mod laws;
pub mod model;
pub mod record;
pub mod transaction;

pub use database::{Database, StorageError};
pub use transaction::{DataSource, DatabaseTransaction, TransactionState};
