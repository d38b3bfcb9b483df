use vstd::prelude::*;

use crate::block::{
    first_winning_nonce, hash_with_nonce, merkle_check, no_winning_nonce, pow_check, transactions_merkle_root,
    unmined_block, BlockView,
};
use crate::error::BlockchainError;
use crate::transaction::{
    tx_id, verify_spec, OutPointView, TransactionView, TxInView, TxOutView,
};

verus! {

/// Unspent outputs by out-point.
pub type UtxoMap = Map<OutPointView, TxOutView>;

/// The map after removing the outputs that `inputs` spend, in order.
pub open spec fn remove_spent(m: UtxoMap, inputs: Seq<TxInView>) -> UtxoMap
    decreases inputs.len(),
{
    if inputs.len() == 0 {
        m
    } else {
        remove_spent(m, inputs.drop_last()).remove(inputs.last().prev_out)
    }
}

/// The map after adding `outputs` under `(txid, position)`, in order; the position is
/// taken modulo 2^32.
pub open spec fn add_outputs(m: UtxoMap, txid: Seq<char>, outputs: Seq<TxOutView>) -> UtxoMap
    decreases outputs.len(),
{
    if outputs.len() == 0 {
        m
    } else {
        add_outputs(m, txid, outputs.drop_last()).insert(
            OutPointView { txid, index: (outputs.len() - 1) as u32 },
            outputs.last(),
        )
    }
}

/// The map after a transaction: what it spends leaves, what it creates arrives.
pub open spec fn apply_transaction(m: UtxoMap, t: TransactionView) -> UtxoMap {
    add_outputs(remove_spent(m, t.inputs), tx_id(t), t.outputs)
}

/// The map after applying transactions in order.
pub open spec fn apply_transactions(m: UtxoMap, txs: Seq<TransactionView>) -> UtxoMap
    decreases txs.len(),
{
    if txs.len() == 0 {
        m
    } else {
        apply_transaction(apply_transactions(m, txs.drop_last()), txs.last())
    }
}

/// Checks and applies one transaction of a block, given the outputs so far and
/// whether a coinbase was already seen.
#[verifier::opaque]
pub open spec fn block_tx_step(m: UtxoMap, coinbase_seen: bool, t: TransactionView) -> Result<
    (UtxoMap, bool),
    BlockchainError,
> {
    if t.inputs.len() == 0 {
        if coinbase_seen {
            Err(BlockchainError::InvalidTransaction)
        } else {
            Ok((apply_transaction(m, t), true))
        }
    } else {
        match verify_spec(t, m) {
            Err(e) => Err(e),
            Ok(_) => Ok((apply_transaction(m, t), coinbase_seen)),
        }
    }
}

/// The outcome of checking and applying the first `k` transactions of a block in
/// order: at most one may be a coinbase; every other one must verify against the
/// outputs as they stand; each is applied before the next is checked. Gives the map
/// and whether a coinbase was seen, or the first error.
pub open spec fn block_txs_state(txs: Seq<TransactionView>, m0: UtxoMap, k: nat) -> Result<
    (UtxoMap, bool),
    BlockchainError,
>
    decreases k,
{
    if k == 0 {
        Ok((m0, false))
    } else {
        match block_txs_state(txs, m0, (k - 1) as nat) {
            Err(e) => Err(e),
            Ok(state) => block_tx_step(state.0, state.1, txs[k - 1]),
        }
    }
}

/// Whether checking a block's transactions from `m0` stops with an error at some
/// transaction, the ones before it having left the outputs `m`.
pub open spec fn block_txs_stopped_at(txs: Seq<TransactionView>, m0: UtxoMap, m: UtxoMap) -> bool {
    exists|k: nat|
        k < txs.len() && #[trigger] block_txs_state(txs, m0, k) is Ok && block_txs_state(txs, m0, k)->Ok_0.0
            == m && block_txs_state(txs, m0, k + 1) is Err
}

/// The outcome of checking and applying all transactions of a block.
pub open spec fn block_txs_outcome(txs: Seq<TransactionView>, m0: UtxoMap) -> Result<UtxoMap, BlockchainError> {
    match block_txs_state(txs, m0, txs.len()) {
        Ok(state) => Ok(state.0),
        Err(e) => Err(e),
    }
}

/// The previous hash that the first block of a chain carries: sixty-four zeros.
pub open spec fn genesis_previous_hash() -> Seq<char> {
    Seq::new(64, |i: int| '0')
}

/// Whether block `p` of a chain carries its position as index, links to the block
/// before it, and carries a valid proof of work.
pub open spec fn header_checks_pass(blocks: Seq<BlockView>, p: int, prefix: Seq<char>) -> bool {
    &&& blocks[p].index == p
    &&& (p == 0 || blocks[p].previous_hash == blocks[p - 1].hash)
    &&& pow_check(blocks[p], prefix) is Ok
}

/// The outcome of checking block `p` of a chain on top of the outputs `m` that the
/// blocks before it leave.
#[verifier::opaque]
pub open spec fn chain_block_step(blocks: Seq<BlockView>, p: int, m: UtxoMap, prefix: Seq<char>) -> Result<
    UtxoMap,
    BlockchainError,
> {
    let b = blocks[p];
    if b.index != p {
        Err(BlockchainError::InvalidBlockHash)
    } else if p > 0 && b.previous_hash != blocks[p - 1].hash {
        Err(BlockchainError::InvalidPreviousHash)
    } else {
        match pow_check(b, prefix) {
            Err(e) => Err(e),
            Ok(_) => match merkle_check(b) {
                Err(e) => Err(e),
                Ok(_) => block_txs_outcome(b.transactions, m),
            },
        }
    }
}

/// The outcome of checking the first `k` blocks of a chain, from no outputs.
pub open spec fn chain_state(blocks: Seq<BlockView>, k: nat, prefix: Seq<char>) -> Result<UtxoMap, BlockchainError>
    decreases k,
{
    if k == 0 {
        Ok(Map::empty())
    } else {
        match chain_state(blocks, (k - 1) as nat, prefix) {
            Err(e) => Err(e),
            Ok(m) => chain_block_step(blocks, k - 1, m, prefix),
        }
    }
}

/// The outcome of checking a whole chain: it must not be empty, it must start from
/// the genesis previous hash, and every block must pass in order. Gives the unspent
/// outputs it leaves.
pub open spec fn validate_chain_spec(blocks: Seq<BlockView>, prefix: Seq<char>) -> Result<UtxoMap, BlockchainError> {
    if blocks.len() == 0 {
        Err(BlockchainError::MissingData("chain"))
    } else if blocks[0].previous_hash != genesis_previous_hash() {
        Err(BlockchainError::GenesisMismatch)
    } else {
        chain_state(blocks, blocks.len(), prefix)
    }
}

/// Whether checking a chain reaches the Merkle check of a block with a single
/// transaction, whose Merkle tree would have one leaf.
pub open spec fn chain_hits_single_leaf(blocks: Seq<BlockView>, prefix: Seq<char>) -> bool {
    &&& blocks.len() > 0
    &&& blocks[0].previous_hash == genesis_previous_hash()
    &&& exists|p: int|
        0 <= p < blocks.len() && chain_state(blocks, p as nat, prefix) is Ok && header_checks_pass(
            blocks,
            p,
            prefix,
        ) && (#[trigger] blocks[p]).transactions.len() == 1
}

/// The outputs that the transactions of the first `k` blocks leave, checked only as
/// a block's transactions are checked, from no outputs.
pub open spec fn rebuild_state(blocks: Seq<BlockView>, k: nat) -> Result<UtxoMap, BlockchainError>
    decreases k,
{
    if k == 0 {
        Ok(Map::empty())
    } else {
        match rebuild_state(blocks, (k - 1) as nat) {
            Err(e) => Err(e),
            Ok(m) => block_txs_outcome(blocks[k - 1].transactions, m),
        }
    }
}

/// The node's state: the chain, the unspent outputs, the waiting transactions and
/// the difficulty prefix.
#[verifier::ext_equal]
pub struct ChainState {
    pub chain: Seq<BlockView>,
    pub utxo: UtxoMap,
    pub pool: Seq<TransactionView>,
    pub prefix: Seq<char>,
}

/// The ids of a list of transactions.
pub open spec fn tx_ids(txs: Seq<TransactionView>) -> Seq<Seq<char>> {
    txs.map_values(|t: TransactionView| tx_id(t))
}

/// The pool after dropping the transactions whose ids are listed.
pub open spec fn pool_without(pool: Seq<TransactionView>, ids: Seq<Seq<char>>) -> Seq<TransactionView> {
    pool.filter(|t: TransactionView| !ids.contains(tx_id(t)))
}

/// Whether checking a block proposed on top of the state reaches the Merkle check
/// of a block with a single transaction.
pub open spec fn candidate_hits_single_leaf(s: ChainState, b: BlockView) -> bool {
    &&& s.chain.len() > 0
    &&& b.previous_hash == s.chain.last().hash
    &&& b.index == s.chain.len()
    &&& pow_check(b, s.prefix) is Ok
    &&& b.transactions.len() == 1
}

/// The outcome of checking a block proposed on top of the state: it must link to the
/// tip, carry the next index, a valid proof of work and Merkle root, and transactions
/// that pass on top of the unspent outputs. Gives the outputs after it.
pub open spec fn candidate_outcome(s: ChainState, b: BlockView) -> Result<UtxoMap, BlockchainError> {
    if s.chain.len() == 0 {
        Err(BlockchainError::MissingData("chain tip"))
    } else if b.previous_hash != s.chain.last().hash {
        Err(BlockchainError::InvalidPreviousHash)
    } else if b.index != s.chain.len() {
        Err(BlockchainError::InvalidBlockHash)
    } else {
        match pow_check(b, s.prefix) {
            Err(e) => Err(e),
            Ok(_) => match merkle_check(b) {
                Err(e) => Err(e),
                Ok(_) => block_txs_outcome(b.transactions, s.utxo),
            },
        }
    }
}

/// The state after a block is added: the block joins the chain, its outputs replace
/// the unspent outputs, and its transactions leave the pool.
pub open spec fn add_block_spec(s: ChainState, b: BlockView) -> Result<ChainState, BlockchainError> {
    match candidate_outcome(s, b) {
        Err(e) => Err(e),
        Ok(m) => Ok(
            ChainState {
                chain: s.chain.push(b),
                utxo: m,
                pool: pool_without(s.pool, tx_ids(b.transactions)),
                prefix: s.prefix,
            },
        ),
    }
}

/// The waiting transactions that still verify against `m`, in order.
pub open spec fn pool_valid_under(pool: Seq<TransactionView>, m: UtxoMap) -> Seq<TransactionView> {
    pool.filter(|t: TransactionView| verify_spec(t, m) is Ok)
}

/// The state after a longer chain replaces the current one: it must be longer and
/// pass validation; the waiting transactions that no longer verify leave the pool.
pub open spec fn replace_chain_spec(s: ChainState, blocks: Seq<BlockView>) -> Result<ChainState, BlockchainError> {
    if blocks.len() <= s.chain.len() {
        Err(BlockchainError::ChainReplacementRejected)
    } else {
        match validate_chain_spec(blocks, s.prefix) {
            Err(e) => Err(e),
            Ok(m) => Ok(
                ChainState { chain: blocks, utxo: m, pool: pool_valid_under(s.pool, m), prefix: s.prefix },
            ),
        }
    }
}

/// The transactions chosen for a block from `candidates`, in order: each one that
/// verifies against the outputs as the chosen ones before it leave them.
pub open spec fn stage_state(candidates: Seq<TransactionView>, m0: UtxoMap, k: nat) -> (Seq<TransactionView>, UtxoMap)
    decreases k,
{
    if k == 0 {
        (Seq::empty(), m0)
    } else {
        let prev = stage_state(candidates, m0, (k - 1) as nat);
        let t = candidates[k - 1];
        if verify_spec(t, prev.1) is Ok {
            (prev.0.push(t), apply_transaction(prev.1, t))
        } else {
            prev
        }
    }
}

/// The pool transactions that mining would put in a block beside the coinbase: from
/// the first hundred waiting, those that verify in turn.
pub open spec fn staged_transactions(s: ChainState) -> Seq<TransactionView> {
    let candidates = s.pool.take(if s.pool.len() < 100 { s.pool.len() as int } else { 100 });
    stage_state(candidates, s.utxo, candidates.len()).0
}

/// The amount a coinbase transaction mints.
pub const BLOCK_REWARD: u64 = 50;

/// The coinbase transaction that pays the block reward to `miner`.
pub open spec fn coinbase_view(miner: Seq<char>, timestamp: i64) -> TransactionView {
    TransactionView {
        inputs: Seq::empty(),
        outputs: seq![TxOutView { value: BLOCK_REWARD, address: miner }],
        timestamp,
    }
}

/// Whether `b` is a block that mining on top of `s` for `miner` produces: the coinbase
/// (with some timestamp) followed by the staged pool transactions, the next index, the
/// tip's hash as previous hash, the Merkle root of the transactions, the first
/// winning nonce from 0 and the hash it gives.
pub open spec fn mined_block(s: ChainState, miner: Seq<char>, b: BlockView) -> bool {
    &&& exists|t: i64| b.transactions == seq![coinbase_view(miner, t)] + staged_transactions(s)
    &&& b.index == s.chain.len()
    &&& s.chain.len() > 0
    &&& b.previous_hash == s.chain.last().hash
    &&& b.merkle_root == transactions_merkle_root(b.transactions)
    &&& first_winning_nonce(b, s.prefix, 0, b.nonce)
    &&& b.hash == hash_with_nonce(b, b.nonce)
}

/// The block that mining on top of `s` for `miner` assembles before its nonce search,
/// with coinbase timestamp `t1` and block timestamp `t2`: the next index, the coinbase
/// followed by the staged pool transactions, and the tip's hash as previous hash.
pub open spec fn candidate_block(s: ChainState, miner: Seq<char>, t1: i64, t2: i64) -> BlockView {
    unmined_block(
        s.chain.len() as u64,
        t2,
        seq![coinbase_view(miner, t1)] + staged_transactions(s),
        s.chain.last().hash,
    )
}

/// Whether no nonce wins for the block that mining on top of `s` for `miner`
/// assembles with coinbase timestamp `t1` and block timestamp `t2`.
pub open spec fn mining_fails_at(s: ChainState, miner: Seq<char>, t1: i64, t2: i64) -> bool {
    no_winning_nonce(
        s.chain.len() as u64,
        t2,
        s.chain.last().hash,
        transactions_merkle_root(seq![coinbase_view(miner, t1)] + staged_transactions(s)),
        s.prefix,
    )
}

/// Whether no nonce wins for some block that mining on top of `s` for `miner` could
/// assemble.
pub open spec fn mining_exhausted(s: ChainState, miner: Seq<char>) -> bool {
    exists|t1: i64, t2: i64| #[trigger] mining_fails_at(s, miner, t1, t2)
}

/// The sum of the values of the listed outputs locked to `address`.
pub open spec fn balance_in(listing: Seq<(OutPointView, TxOutView)>, address: Seq<char>) -> int
    decreases listing.len(),
{
    if listing.len() == 0 {
        0
    } else {
        balance_in(listing.drop_last(), address) + if listing.last().1.address == address {
            listing.last().1.value as int
        } else {
            0
        }
    }
}

/// The difficulty prefix a node starts with: four zeros.
pub open spec fn default_difficulty_prefix() -> Seq<char> {
    seq!['0', '0', '0', '0']
}

/// Whether `b` is a first block mined with prefix `prefix`: index 0, no transactions,
/// the genesis previous hash, the Merkle root of no transactions, the first winning
/// nonce from 0 and the hash it gives.
pub open spec fn genesis_block(b: BlockView, prefix: Seq<char>) -> bool {
    &&& b.index == 0
    &&& b.transactions == Seq::<TransactionView>::empty()
    &&& b.previous_hash == genesis_previous_hash()
    &&& b.merkle_root == transactions_merkle_root(Seq::<TransactionView>::empty())
    &&& first_winning_nonce(b, prefix, 0, b.nonce)
    &&& b.hash == hash_with_nonce(b, b.nonce)
}


/// Whether a state is one a node can be in: validating its chain gives its unspent
/// outputs, and that check never reaches a block with a single transaction (whose
/// Merkle tree would have one leaf).
pub open spec fn state_consistent(s: ChainState) -> bool {
    &&& validate_chain_spec(s.chain, s.prefix) == Ok::<UtxoMap, BlockchainError>(s.utxo)
    &&& !chain_hits_single_leaf(s.chain, s.prefix)
}

/// Whether one operation of a node can take state `s` to `s2`: a failed operation
/// (nothing changes), adding a block (also what mining does) that the node accepts,
/// replacing the chain by one the node accepts, or putting a transaction that
/// verifies into the pool.
pub open spec fn node_step(s: ChainState, s2: ChainState) -> bool {
    ||| s2 == s
    ||| exists|b: BlockView|
        !candidate_hits_single_leaf(s, b) && add_block_spec(s, b) == Ok::<ChainState, BlockchainError>(s2)
    ||| exists|c: Seq<BlockView>|
        !chain_hits_single_leaf(c, s.prefix) && replace_chain_spec(s, c) == Ok::<ChainState, BlockchainError>(s2)
    ||| exists|t: TransactionView|
        verify_spec(t, s.utxo) is Ok && s2 == (ChainState { pool: s.pool.push(t), ..s })
}

} // verus!
