//! A minimal UTXO-model blockchain: proof-of-work blocks, signed
//! transactions, a derived index of unspent outputs and versioned
//! Base58 addresses, with machine-checked contracts.

pub mod balances;
pub mod block;
pub mod blockchain;
pub mod hashing;
pub mod http;
pub mod keys;
pub mod merkle_tree;
pub mod proof_of_work;
pub mod reindex;
pub mod store;
pub mod supply;
pub mod transaction;
pub mod utils;
pub mod utxo_set;
pub mod wallet;
