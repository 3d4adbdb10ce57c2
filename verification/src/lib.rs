//! A ledger replay engine: folds an ordered stream of account transactions
//! into a final balance snapshot per client, handling the
//! dispute -> resolve/chargeback lifecycle and account locking.

pub mod client;
pub mod engine;
pub mod laws;
pub mod record;

pub use client::Client;
pub use engine::compile_snapshot;
pub use record::Record;
pub use record::TransactionType;
