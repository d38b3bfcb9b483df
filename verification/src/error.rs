use vstd::prelude::*;

verus! {

/// Everything that can go wrong while validating or applying chain data.
#[derive(Debug)]
pub enum BlockchainError {
    InvalidSignature,
    InsufficientBalance,
    InvalidBlockHash,
    InvalidPreviousHash,
    PoWNotMet,
    InputNotFound,
    InvalidPublicKey,
    InvalidSignatureFormat,
    InvalidMerkleRoot,
    InvalidTransaction,
    DuplicateInput,
    ChainReplacementRejected,
    GenesisMismatch,
    MissingData(&'static str),
    SerializationError(String),
    StorageError(String),
}

} // verus!
