//! A small UTXO blockchain: transactions, a mempool, proof-of-work blocks with
//! Merkle roots, and the chain state that validates and applies them.

pub mod error;
pub mod encoding;
pub mod crypto;
pub mod transaction;
pub mod utxo;
pub mod merkle;
pub mod block;
pub mod mempool;
pub mod chain_rules;
pub mod blockchain;
pub mod selection;
pub mod wallet;
pub mod network;
pub mod laws;
pub mod acceptance_laws;
