use vstd::prelude::*;

use crate::block::{
    first_winning_nonce, hash_with_nonce, no_winning_nonce, nonce_wins, transactions_merkle_root, unmined_block,
    with_nonce, Block, BlockView,
};
use crate::chain_rules::{
    add_block_spec, add_outputs, apply_transaction, apply_transactions, block_txs_outcome,
    block_tx_step, block_txs_state, block_txs_stopped_at, candidate_hits_single_leaf, candidate_outcome, chain_block_step,
    chain_hits_single_leaf, chain_state, genesis_previous_hash, header_checks_pass, pool_valid_under,
    pool_without, rebuild_state, remove_spent, replace_chain_spec, stage_state, staged_transactions,
    tx_ids, validate_chain_spec, ChainState, UtxoMap, coinbase_view, mined_block, mining_exhausted, mining_fails_at,
    balance_in, BLOCK_REWARD, default_difficulty_prefix, genesis_block, candidate_block,
};
use crate::crypto::now_timestamp;
use crate::encoding::text_eq;
use crate::selection::{
    entries_for_address, entries_view, selection_count, selection_from, sort_by_out_point,
    sorted_entries_for_address,
};
use crate::transaction::TxOut;
use crate::error::BlockchainError;
use crate::mempool::{ids_distinct, pool_has_id, Mempool};
use crate::transaction::{transactions_view, tx_id, verify_spec, OutPoint, Transaction, TransactionView};
use crate::utxo::UtxoSet;

verus! {

/// The views of a list of blocks.
pub open spec fn blocks_view(blocks: Seq<Block>) -> Seq<BlockView> {
    blocks.map_values(|b: Block| b@)
}

/// A node's chain state: the blocks, the unspent outputs they leave, the
/// transactions waiting to be mined, and the prefix every block hash must start with.
#[derive(Debug)]
pub struct Blockchain {
    pub chain: Vec<Block>,
    pub utxo_set: UtxoSet,
    pub mempool: Mempool,
    pub difficulty_prefix: String,
}

impl View for Blockchain {
    type V = ChainState;

    open spec fn view(&self) -> ChainState {
        ChainState {
            chain: blocks_view(self.chain@),
            utxo: self.utxo_set@,
            pool: self.mempool@,
            prefix: self.difficulty_prefix@,
        }
    }
}

impl Blockchain {
    /// Applies one transaction to the unspent outputs.
    fn apply_transaction_to_utxo(utxo_set: &mut UtxoSet, tx: &Transaction)
        ensures
            final(utxo_set)@ == apply_transaction(old(utxo_set)@, tx@),
    {
        let txid = tx.id();
        let ghost start = utxo_set@;
        let mut j: usize = 0;
        while j < tx.inputs.len()
            invariant
                j <= tx@.inputs.len(),
                utxo_set@ == remove_spent(start, tx@.inputs.take(j as int)),
            decreases tx@.inputs.len() - j,
        {
            utxo_set.remove(&tx.inputs[j].prev_out);
            proof {
                assert(tx@.inputs.take(j + 1).drop_last() =~= tx@.inputs.take(j as int));
                assert(tx@.inputs[j as int] == tx.inputs@[j as int]@);
            }
            j = j + 1;
        }
        proof {
            assert(tx@.inputs.take(j as int) =~= tx@.inputs);
        }
        let ghost mid = utxo_set@;
        let mut k: usize = 0;
        while k < tx.outputs.len()
            invariant
                k <= tx@.outputs.len(),
                txid@ == tx_id(tx@),
                utxo_set@ == add_outputs(mid, txid@, tx@.outputs.take(k as int)),
            decreases tx@.outputs.len() - k,
        {
            let key = OutPoint { txid: txid.clone(), index: k as u32 };
            utxo_set.insert(key, tx.outputs[k].clone());
            proof {
                assert(tx@.outputs.take(k + 1).drop_last() =~= tx@.outputs.take(k as int));
                assert(tx@.outputs[k as int] == tx.outputs@[k as int]@);
            }
            k = k + 1;
        }
        proof {
            assert(tx@.outputs.take(k as int) =~= tx@.outputs);
        }
    }

    /// Applies transactions to the unspent outputs in order.
    fn apply_transactions_to_utxo(utxo_set: &mut UtxoSet, transactions: &[Transaction])
        ensures
            final(utxo_set)@ == apply_transactions(old(utxo_set)@, transactions_view(transactions@)),
    {
        let ghost start = utxo_set@;
        let ghost txs = transactions_view(transactions@);
        let mut i: usize = 0;
        while i < transactions.len()
            invariant
                i <= transactions@.len(),
                txs == transactions_view(transactions@),
                utxo_set@ == apply_transactions(start, txs.take(i as int)),
            decreases transactions@.len() - i,
        {
            Self::apply_transaction_to_utxo(utxo_set, &transactions[i]);
            proof {
                assert(txs.take(i + 1).drop_last() =~= txs.take(i as int));
            }
            i = i + 1;
        }
        proof {
            assert(txs.take(i as int) =~= txs);
        }
    }

    /// Checks and applies a block's transactions in order; see `block_txs_outcome`.
    /// On an error the outputs hold what the transactions before the failing one left.
    fn validate_transactions_for_block(transactions: &[Transaction], utxo_set: &mut UtxoSet) -> (res: Result<
        (),
        BlockchainError,
    >)
        ensures
            match block_txs_outcome(transactions_view(transactions@), old(utxo_set)@) {
                Ok(m) => res is Ok && final(utxo_set)@ == m,
                Err(e) => res == Err::<(), BlockchainError>(e) && block_txs_stopped_at(
                    transactions_view(transactions@),
                    old(utxo_set)@,
                    final(utxo_set)@,
                ),
            },
    {
        let ghost start = utxo_set@;
        let ghost txs = transactions_view(transactions@);
        let mut coinbase_seen = false;
        let mut i: usize = 0;
        while i < transactions.len()
            invariant
                i <= transactions@.len(),
                txs == transactions_view(transactions@),
                start == old(utxo_set)@,
                block_txs_state(txs, start, i as nat) == Ok::<(UtxoMap, bool), BlockchainError>(
                    (utxo_set@, coinbase_seen),
                ),
            decreases transactions@.len() - i,
        {
            let tx = &transactions[i];
            let ghost m = utxo_set@;
            let ghost seen = coinbase_seen;
            proof {
                assert(txs[i as int] == tx@);
                assert(block_txs_state(txs, start, (i + 1) as nat) == block_tx_step(m, seen, tx@));
            }
            if tx.is_coinbase() {
                if coinbase_seen {
                    proof {
                        assert(block_tx_step(m, seen, tx@) == Err::<(UtxoMap, bool), BlockchainError>(
                            BlockchainError::InvalidTransaction,
                        )) by {
                            reveal(block_tx_step);
                        }
                        lemma_block_txs_err(txs, start, (i + 1) as nat, txs.len());
                        assert(block_txs_outcome(txs, start) == Err::<UtxoMap, BlockchainError>(
                            BlockchainError::InvalidTransaction,
                        ));
                        assert(block_txs_state(txs, start, i as nat) is Ok);
                        assert(block_txs_stopped_at(txs, start, utxo_set@));
                    }
                    return Err(BlockchainError::InvalidTransaction);
                }
                coinbase_seen = true;
            } else {
                match tx.verify(utxo_set) {
                    Ok(()) => {},
                    Err(e) => {
                        proof {
                            assert(block_tx_step(m, seen, tx@) == Err::<(UtxoMap, bool), BlockchainError>(e)) by {
                                reveal(block_tx_step);
                            }
                            lemma_block_txs_err(txs, start, (i + 1) as nat, txs.len());
                            assert(block_txs_outcome(txs, start) == Err::<UtxoMap, BlockchainError>(e));
                            assert(block_txs_state(txs, start, i as nat) is Ok);
                            assert(block_txs_stopped_at(txs, start, utxo_set@));
                        }
                        return Err(e);
                    },
                }
            }
            Self::apply_transaction_to_utxo(utxo_set, tx);
            proof {
                assert(block_tx_step(m, seen, tx@) == Ok::<(UtxoMap, bool), BlockchainError>(
                    (utxo_set@, coinbase_seen),
                )) by {
                    reveal(block_tx_step);
                }
            }
            i = i + 1;
        }
        Ok(())
    }

    /// Checks a transaction against a state of the unspent outputs.
    fn validate_transaction_against_state(&self, tx: &Transaction, utxo_state: &UtxoSet) -> (res: Result<
        (),
        BlockchainError,
    >)
        ensures
            res == verify_spec(tx@, utxo_state@),
    {
        tx.verify(utxo_state)
    }

    /// Rebuilds the unspent outputs from a chain's transactions.
    fn rebuild_utxo_set(chain: &[Block]) -> (res: Result<UtxoSet, BlockchainError>)
        ensures
            match rebuild_state(blocks_view(chain@), chain@.len()) {
                Ok(m) => res matches Ok(u) && u@ == m,
                Err(e) => res matches Err(r) && r == e,
            },
    {
        let ghost blocks = blocks_view(chain@);
        let mut utxo = UtxoSet::new();
        let mut i: usize = 0;
        while i < chain.len()
            invariant
                i <= chain@.len(),
                blocks == blocks_view(chain@),
                rebuild_state(blocks, i as nat) == Ok::<UtxoMap, BlockchainError>(utxo@),
            decreases chain@.len() - i,
        {
            proof {
                assert(blocks[i as int] == chain@[i as int]@);
            }
            match Self::validate_transactions_for_block(chain[i].transactions.as_slice(), &mut utxo) {
                Ok(()) => {},
                Err(e) => {
                    proof {
                        lemma_rebuild_err(blocks, (i + 1) as nat, blocks.len());
                    }
                    return Err(e);
                },
            }
            i = i + 1;
        }
        Ok(utxo)
    }

    /// The prefix every block hash must start with.
    pub fn difficulty_prefix(&self) -> (prefix: &str)
        ensures
            prefix@ == self.difficulty_prefix@,
    {
        self.difficulty_prefix.as_str()
    }

    /// The hash of the last block.
    pub fn tip_hash(&self) -> (res: Result<String, BlockchainError>)
        ensures
            match res {
                Ok(h) => self@.chain.len() > 0 && h@ == self@.chain.last().hash,
                Err(e) => self@.chain.len() == 0 && e == BlockchainError::MissingData("chain tip"),
            },
    {
        let n = self.chain.len();
        if n == 0 {
            return Err(BlockchainError::MissingData("chain tip"));
        }
        proof {
            assert(self@.chain.last() == self.chain@[n - 1]@);
        }
        Ok(self.chain[n - 1].hash.clone())
    }
}

/// Once checking a block's transactions has failed, it stays failed with that error.
proof fn lemma_block_txs_err(txs: Seq<TransactionView>, m0: UtxoMap, k: nat, n: nat)
    requires
        k <= n,
        block_txs_state(txs, m0, k) is Err,
    ensures
        block_txs_state(txs, m0, n) == block_txs_state(txs, m0, k),
    decreases n - k,
{
    if k < n {
        lemma_block_txs_err(txs, m0, k, (n - 1) as nat);
    }
}

/// Once rebuilding has failed, it stays failed with that error.
proof fn lemma_rebuild_err(blocks: Seq<BlockView>, k: nat, n: nat)
    requires
        k <= n,
        rebuild_state(blocks, k) is Err,
    ensures
        rebuild_state(blocks, n) == rebuild_state(blocks, k),
    decreases n - k,
{
    if k < n {
        lemma_rebuild_err(blocks, k, (n - 1) as nat);
    }
}

/// Once checking a chain has failed, it stays failed with that error.
proof fn lemma_chain_state_err(blocks: Seq<BlockView>, prefix: Seq<char>, k: nat, n: nat)
    requires
        k <= n,
        chain_state(blocks, k, prefix) is Err,
    ensures
        chain_state(blocks, n, prefix) == chain_state(blocks, k, prefix),
    decreases n - k,
{
    if k < n {
        lemma_chain_state_err(blocks, prefix, k, (n - 1) as nat);
    }
}

/// Sixty-four zeros, the previous hash of a first block.
fn genesis_previous_hash_text() -> (s: String)
    ensures
        s@ == genesis_previous_hash(),
{
    let s = String::from_str("0000000000000000000000000000000000000000000000000000000000000000");
    proof {
        reveal_strlit("0000000000000000000000000000000000000000000000000000000000000000");
        assert(s@ =~= genesis_previous_hash());
    }
    s
}

impl Blockchain {
    /// Checks a whole chain as `validate_chain` does, but gives `None` instead of
    /// reaching the Merkle check of a block with a single transaction.
    pub fn validate_chain_checked(&self, chain: &[Block]) -> (res: Option<Result<UtxoSet, BlockchainError>>)
        ensures
            res is None <==> chain_hits_single_leaf(blocks_view(chain@), self@.prefix),
            res matches Some(r) ==> match validate_chain_spec(blocks_view(chain@), self@.prefix) {
                Ok(m) => r matches Ok(u) && u@ == m,
                Err(e) => r matches Err(x) && x == e,
            },
    {
        let ghost blocks = blocks_view(chain@);
        let ghost prefix = self@.prefix;
        if chain.len() == 0 {
            return Some(Err(BlockchainError::MissingData("chain")));
        }
        proof {
            assert(blocks[0] == chain@[0]@);
        }
        let genesis_previous = genesis_previous_hash_text();
        if chain[0].previous_hash != genesis_previous {
            return Some(Err(BlockchainError::GenesisMismatch));
        }
        let mut utxo = UtxoSet::new();
        let mut expected_index: u64 = 0;
        let mut previous_hash = String::new();
        let mut position: usize = 0;
        while position < chain.len()
            invariant
                blocks == blocks_view(chain@),
                prefix == self@.prefix,
                blocks.len() > 0,
                blocks[0].previous_hash == genesis_previous_hash(),
                position <= chain@.len(),
                expected_index == position,
                position > 0 ==> previous_hash@ == blocks[position - 1].hash,
                chain_state(blocks, position as nat, prefix) == Ok::<UtxoMap, BlockchainError>(utxo@),
                forall|p: int|
                    0 <= p < position ==> !(chain_state(blocks, p as nat, prefix) is Ok
                        && header_checks_pass(blocks, p, prefix) && (#[trigger] blocks[p]).transactions.len()
                        == 1),
            decreases chain@.len() - position,
        {
            let block = &chain[position];
            let ghost m = utxo@;
            let ghost p = position as int;
            proof {
                assert(blocks[p] == block@);
                assert(chain_state(blocks, (position + 1) as nat, prefix) == chain_block_step(
                    blocks,
                    p,
                    m,
                    prefix,
                ));
            }
            if block.index != expected_index {
                proof {
                    assert(chain_block_step(blocks, p, m, prefix) == Err::<UtxoMap, BlockchainError>(
                        BlockchainError::InvalidBlockHash,
                    )) by {
                        reveal(chain_block_step);
                    }
                    lemma_chain_state_err(blocks, prefix, (position + 1) as nat, blocks.len());
                    lemma_no_single_leaf_before_failure(blocks, prefix, p);
                }
                return Some(Err(BlockchainError::InvalidBlockHash));
            }
            if position > 0 && block.previous_hash != previous_hash {
                proof {
                    assert(chain_block_step(blocks, p, m, prefix) == Err::<UtxoMap, BlockchainError>(
                        BlockchainError::InvalidPreviousHash,
                    )) by {
                        reveal(chain_block_step);
                    }
                    lemma_chain_state_err(blocks, prefix, (position + 1) as nat, blocks.len());
                    lemma_no_single_leaf_before_failure(blocks, prefix, p);
                }
                return Some(Err(BlockchainError::InvalidPreviousHash));
            }
            match block.validate_pow(self.difficulty_prefix.as_str()) {
                Ok(()) => {},
                Err(e) => {
                    proof {
                        assert(chain_block_step(blocks, p, m, prefix) == Err::<UtxoMap, BlockchainError>(e)) by {
                            reveal(chain_block_step);
                        }
                        lemma_chain_state_err(blocks, prefix, (position + 1) as nat, blocks.len());
                        lemma_no_single_leaf_before_failure(blocks, prefix, p);
                    }
                    return Some(Err(e));
                },
            }
            proof {
                assert(header_checks_pass(blocks, p, prefix));
            }
            if block.transactions.len() == 1 {
                return None;
            }
            match block.validate_merkle_root() {
                Ok(()) => {},
                Err(e) => {
                    proof {
                        assert(chain_block_step(blocks, p, m, prefix) == Err::<UtxoMap, BlockchainError>(e)) by {
                            reveal(chain_block_step);
                        }
                        lemma_chain_state_err(blocks, prefix, (position + 1) as nat, blocks.len());
                        lemma_no_single_leaf_before_failure(blocks, prefix, p);
                    }
                    return Some(Err(e));
                },
            }
            match Self::validate_transactions_for_block(block.transactions.as_slice(), &mut utxo) {
                Ok(()) => {},
                Err(e) => {
                    proof {
                        assert(chain_block_step(blocks, p, m, prefix) == Err::<UtxoMap, BlockchainError>(e)) by {
                            reveal(chain_block_step);
                        }
                        lemma_chain_state_err(blocks, prefix, (position + 1) as nat, blocks.len());
                        lemma_no_single_leaf_before_failure(blocks, prefix, p);
                    }
                    return Some(Err(e));
                },
            }
            proof {
                assert(chain_block_step(blocks, p, m, prefix) == Ok::<UtxoMap, BlockchainError>(utxo@)) by {
                    reveal(chain_block_step);
                }
            }
            previous_hash = block.hash.clone();
            expected_index = expected_index + 1;
            position = position + 1;
        }
        Some(Ok(utxo))
    }

    /// Checks a whole chain from its first block: see `validate_chain_spec`. Gives the
    /// unspent outputs the chain leaves. A chain whose check would reach the Merkle
    /// check of a block with a single transaction is not accepted.
    pub fn validate_chain(&self, chain: &[Block]) -> (res: Result<UtxoSet, BlockchainError>)
        requires
            !chain_hits_single_leaf(blocks_view(chain@), self@.prefix),
        ensures
            match validate_chain_spec(blocks_view(chain@), self@.prefix) {
                Ok(m) => res matches Ok(u) && u@ == m,
                Err(e) => res matches Err(x) && x == e,
            },
    {
        match self.validate_chain_checked(chain) {
            Some(r) => r,
            None => Err(BlockchainError::MissingData("chain")),
        }
    }
}

/// When checking fails at block `q`, no block from `q` on is reached by the check.
proof fn lemma_no_single_leaf_before_failure(blocks: Seq<BlockView>, prefix: Seq<char>, q: int)
    requires
        0 <= q < blocks.len(),
        chain_state(blocks, (q + 1) as nat, prefix) is Err,
        forall|p: int|
            0 <= p < q ==> !(chain_state(blocks, p as nat, prefix) is Ok && header_checks_pass(
                blocks,
                p,
                prefix,
            ) && (#[trigger] blocks[p]).transactions.len() == 1),
        !(blocks[q].transactions.len() == 1 && header_checks_pass(blocks, q, prefix)
            && chain_state(blocks, q as nat, prefix) is Ok),
    ensures
        !chain_hits_single_leaf(blocks, prefix),
{
    assert forall|p: int|
        0 <= p < blocks.len() && (#[trigger] chain_state(blocks, p as nat, prefix)) is Ok implies p <= q by {
        if p > q {
            lemma_chain_state_err(blocks, prefix, (q + 1) as nat, p as nat);
        }
    }
}

/// The texts of a list of strings.
pub open spec fn texts_view(strings: Seq<String>) -> Seq<Seq<char>> {
    strings.map_values(|s: String| s@)
}

impl Blockchain {
    /// Checks a block proposed on top of the chain as `add_block` does, but gives
    /// `None` instead of reaching the Merkle check of a block with a single
    /// transaction. Gives the outputs after the block and its transactions' ids.
    fn validate_candidate_block_checked(&self, block: &Block) -> (res: Option<
        Result<(UtxoSet, Vec<String>), BlockchainError>,
    >)
        ensures
            res is None <==> candidate_hits_single_leaf(self@, block@),
            res matches Some(r) ==> match candidate_outcome(self@, block@) {
                Ok(m) => r matches Ok(pair) && pair.0@ == m && texts_view(pair.1@) == tx_ids(
                    block@.transactions,
                ),
                Err(e) => r matches Err(x) && x == e,
            },
    {
        let expected_previous_hash = match self.tip_hash() {
            Ok(h) => h,
            Err(e) => return Some(Err(e)),
        };
        if block.previous_hash != expected_previous_hash {
            return Some(Err(BlockchainError::InvalidPreviousHash));
        }
        if block.index != self.chain.len() as u64 {
            return Some(Err(BlockchainError::InvalidBlockHash));
        }
        match block.validate_pow(self.difficulty_prefix.as_str()) {
            Ok(()) => {},
            Err(e) => return Some(Err(e)),
        }
        if block.transactions.len() == 1 {
            return None;
        }
        match block.validate_merkle_root() {
            Ok(()) => {},
            Err(e) => return Some(Err(e)),
        }
        let mut candidate_utxo = self.utxo_set.duplicate();
        match Self::validate_transactions_for_block(block.transactions.as_slice(), &mut candidate_utxo) {
            Ok(()) => {},
            Err(e) => return Some(Err(e)),
        }
        let mut tx_ids_list: Vec<String> = Vec::new();
        let mut i: usize = 0;
        while i < block.transactions.len()
            invariant
                i <= block.transactions@.len(),
                tx_ids_list@.len() == i,
                forall|j: int| 0 <= j < i ==> (#[trigger] tx_ids_list@[j])@ == tx_id(block@.transactions[j]),
            decreases block.transactions@.len() - i,
        {
            let id = block.transactions[i].id();
            proof {
                assert(block@.transactions[i as int] == block.transactions@[i as int]@);
            }
            tx_ids_list.push(id);
            i = i + 1;
        }
        proof {
            assert(texts_view(tx_ids_list@) =~= tx_ids(block@.transactions));
        }
        Some(Ok((candidate_utxo, tx_ids_list)))
    }

    /// Appends a block proposed on top of the chain: see `add_block_spec`. On an error
    /// nothing changes. A block whose check would reach the Merkle check with a single
    /// transaction is not accepted.
    pub fn add_block(&mut self, block: Block) -> (res: Result<(), BlockchainError>)
        requires
            !candidate_hits_single_leaf(old(self)@, block@),
        ensures
            match add_block_spec(old(self)@, block@) {
                Ok(s) => res is Ok && final(self)@ == s,
                Err(e) => res == Err::<(), BlockchainError>(e) && final(self)@ == old(self)@,
            },
    {
        let (candidate_utxo, tx_ids_list) = match self.validate_candidate_block_checked(&block) {
            Some(Ok(pair)) => pair,
            Some(Err(e)) => return Err(e),
            None => return Err(BlockchainError::InvalidMerkleRoot),
        };
        let ghost bv = block@;
        let ghost old_pool = self.mempool@;
        self.chain.push(block);
        self.utxo_set = candidate_utxo;
        self.mempool.remove_transactions(tx_ids_list.as_slice());
        proof {
            assert(blocks_view(self.chain@) =~= old(self)@.chain.push(bv));
            let ids = tx_ids(bv.transactions);
            assert(tx_ids_list@.map_values(|s: String| s@) == ids);
            assert(self.mempool@ =~= pool_without(old_pool, ids));
        }
        Ok(())
    }

    /// Adds a block as `add_block` does, or gives `None`, changing nothing, where
    /// `add_block` does not accept the block.
    pub fn try_add_block(&mut self, block: Block) -> (res: Option<Result<(), BlockchainError>>)
        ensures
            res is None <==> candidate_hits_single_leaf(old(self)@, block@),
            res is None ==> final(self)@ == old(self)@,
            res matches Some(r) ==> match add_block_spec(old(self)@, block@) {
                Ok(s) => r is Ok && final(self)@ == s,
                Err(e) => r == Err::<(), BlockchainError>(e) && final(self)@ == old(self)@,
            },
    {
        if self.chain.len() > 0 {
            let n = self.chain.len();
            proof {
                assert(self@.chain.last() == self.chain@[n - 1]@);
            }
            if block.previous_hash == self.chain[n - 1].hash && block.index == n as u64
                && block.validate_pow(self.difficulty_prefix.as_str()).is_ok()
                && block.transactions.len() == 1 {
                return None;
            }
        }
        Some(self.add_block(block))
    }
}

impl Blockchain {
    /// Keeps, in order, the waiting transactions that still verify against the
    /// unspent outputs.
    fn retain_valid_mempool(&mut self) -> (res: Result<(), BlockchainError>)
        ensures
            res is Ok,
            final(self)@ == (ChainState { pool: pool_valid_under(old(self)@.pool, old(self)@.utxo), ..old(self)@ }),
    {
        let current = self.mempool.all();
        let ghost old_pool = self.mempool@;
        let ghost m = self.utxo_set@;
        let ghost keep = |t: TransactionView| verify_spec(t, m) is Ok;
        self.mempool = Mempool::new();
        let mut i: usize = 0;
        while i < current.len()
            invariant
                i <= current@.len(),
                transactions_view(current@) == old_pool,
                ids_distinct(old_pool),
                m == self.utxo_set@,
                keep == (|t: TransactionView| verify_spec(t, m) is Ok),
                self@ == (ChainState { pool: self.mempool@, ..old(self)@ }),
                self.mempool@ == old_pool.take(i as int).filter(keep),
                forall|a: int|
                    0 <= a < self.mempool@.len() ==> exists|j: int|
                        0 <= j < i && old_pool[j] == #[trigger] self.mempool@[a],
            decreases current@.len() - i,
        {
            let tx = &current[i];
            proof {
                assert(old_pool[i as int] == tx@);
                assert(old_pool.take(i + 1) =~= old_pool.take(i as int).push(tx@));
                old_pool.take(i as int).lemma_filter_push(tx@, keep);
            }
            if self.validate_transaction_against_state(tx, &self.utxo_set).is_ok() {
                let ghost before = self.mempool@;
                proof {
                    if pool_has_id(before, tx_id(tx@)) {
                        let a = choose|a: int| 0 <= a < before.len() && tx_id(#[trigger] before[a]) == tx_id(tx@);
                        let j = choose|j: int| 0 <= j < i && old_pool[j] == #[trigger] before[a];
                        assert(old_pool[j] == before[a]);
                    }
                }
                self.mempool.add_transaction(tx.clone());
                proof {
                    assert forall|a: int| 0 <= a < self.mempool@.len() implies exists|j: int|
                        0 <= j < i + 1 && old_pool[j] == #[trigger] self.mempool@[a] by {
                        if a < before.len() {
                            let j = choose|j: int| 0 <= j < i && old_pool[j] == #[trigger] before[a];
                            assert(self.mempool@[a] == before[a]);
                        } else {
                            assert(self.mempool@[a] == old_pool[i as int]);
                        }
                    }
                }
            }
            i = i + 1;
        }
        proof {
            assert(old_pool.take(i as int) =~= old_pool);
            assert(self@ =~= (ChainState { pool: pool_valid_under(old(self)@.pool, old(self)@.utxo), ..old(self)@ }));
        }
        Ok(())
    }

    /// Replaces the chain with a longer one that passes validation: see
    /// `replace_chain_spec`. On an error nothing changes. A chain whose check would
    /// reach the Merkle check of a block with a single transaction is not accepted.
    pub fn replace_chain(&mut self, new_chain: Vec<Block>) -> (res: Result<(), BlockchainError>)
        requires
            !(new_chain@.len() > old(self)@.chain.len() && chain_hits_single_leaf(
                blocks_view(new_chain@),
                old(self)@.prefix,
            )),
        ensures
            match replace_chain_spec(old(self)@, blocks_view(new_chain@)) {
                Ok(s) => res is Ok && final(self)@ == s,
                Err(e) => res == Err::<(), BlockchainError>(e) && final(self)@ == old(self)@,
            },
    {
        if new_chain.len() <= self.chain.len() {
            return Err(BlockchainError::ChainReplacementRejected);
        }
        let new_utxo = match self.validate_chain(new_chain.as_slice()) {
            Ok(u) => u,
            Err(e) => return Err(e),
        };
        self.chain = new_chain;
        self.utxo_set = new_utxo;
        match self.retain_valid_mempool() {
            Ok(()) => {},
            Err(e) => return Err(e),
        }
        Ok(())
    }

    /// Replaces the chain as `replace_chain` does, or gives `None`, changing nothing,
    /// where `replace_chain` does not accept the chain.
    pub fn try_replace_chain(&mut self, new_chain: Vec<Block>) -> (res: Option<Result<(), BlockchainError>>)
        ensures
            res is None <==> (new_chain@.len() > old(self)@.chain.len() && chain_hits_single_leaf(
                blocks_view(new_chain@),
                old(self)@.prefix,
            )),
            res is None ==> final(self)@ == old(self)@,
            res matches Some(r) ==> match replace_chain_spec(old(self)@, blocks_view(new_chain@)) {
                Ok(s) => r is Ok && final(self)@ == s,
                Err(e) => r == Err::<(), BlockchainError>(e) && final(self)@ == old(self)@,
            },
    {
        if new_chain.len() > self.chain.len() && self.validate_chain_checked(new_chain.as_slice()).is_none() {
            return None;
        }
        Some(self.replace_chain(new_chain))
    }
}

impl Blockchain {
    /// Checks a transaction against the unspent outputs and puts it in the pool under
    /// its id, unless a transaction with that id already waits. Gives the id.
    pub fn add_to_mempool(&mut self, tx: Transaction) -> (res: Result<String, BlockchainError>)
        ensures
            match verify_spec(tx@, old(self)@.utxo) {
                Err(e) => res == Err::<String, BlockchainError>(e) && final(self)@ == old(self)@,
                Ok(_) => res matches Ok(id) && id@ == tx_id(tx@) && final(self)@ == (if pool_has_id(
                    old(self)@.pool,
                    tx_id(tx@),
                ) {
                    old(self)@
                } else {
                    ChainState { pool: old(self)@.pool.push(tx@), ..old(self)@ }
                }),
            },
    {
        match self.validate_transaction_against_state(&tx, &self.utxo_set) {
            Ok(()) => {},
            Err(e) => return Err(e),
        }
        let txid = tx.id();
        if self.mempool.contains(txid.as_str()) {
            return Ok(txid);
        }
        let id = self.mempool.add_transaction(tx);
        proof {
            assert(self@ =~= ChainState { pool: old(self)@.pool.push(tx@), ..old(self)@ });
        }
        Ok(id)
    }

    /// The pool transactions that a new block would hold beside the coinbase: from the
    /// first hundred waiting, those that verify in turn against the outputs as the
    /// ones chosen before them leave them.
    fn stage_mempool(&self) -> (staged: Vec<Transaction>)
        ensures
            transactions_view(staged@) == staged_transactions(self@),
    {
        let mut staged_utxo = self.utxo_set.duplicate();
        let candidates = self.mempool.get_transactions_for_block(100);
        let ghost cands = transactions_view(candidates@);
        let mut staged: Vec<Transaction> = Vec::new();
        let mut i: usize = 0;
        while i < candidates.len()
            invariant
                i <= candidates@.len(),
                cands == transactions_view(candidates@),
                cands == self@.pool.take(if self@.pool.len() < 100 { self@.pool.len() as int } else { 100 }),
                stage_state(cands, self@.utxo, i as nat) == (transactions_view(staged@), staged_utxo@),
            decreases candidates@.len() - i,
        {
            let tx = &candidates[i];
            proof {
                assert(cands[i as int] == tx@);
            }
            if self.validate_transaction_against_state(tx, &staged_utxo).is_ok() {
                Self::apply_transaction_to_utxo(&mut staged_utxo, tx);
                let ghost before = staged@;
                staged.push(tx.clone());
                proof {
                    assert(transactions_view(staged@) =~= transactions_view(before).push(tx@));
                }
            }
            i = i + 1;
        }
        staged
    }

    /// Mines a block on top of the chain: reads the clock for the coinbase timestamp
    /// and for the block timestamp, then mines as `mine_block_from_mempool_at` does.
    /// On an error nothing changes. Where the chain has blocks but no pool
    /// transaction would be staged, the block would hold the coinbase alone, whose
    /// Merkle tree would have one leaf: that is not accepted.
    pub fn mine_block_from_mempool(&mut self, miner_address: String) -> (res: Result<Block, BlockchainError>)
        requires
            !(old(self)@.chain.len() > 0 && staged_transactions(old(self)@).len() == 0),
        ensures
            match res {
                Ok(b) => mined_block(old(self)@, miner_address@, b@) && add_block_spec(old(self)@, b@)
                    == Ok::<ChainState, BlockchainError>(final(self)@),
                Err(e) => {
                    &&& final(self)@ == old(self)@
                    &&& old(self)@.chain.len() == 0 ==> e == BlockchainError::MissingData("chain tip")
                    &&& old(self)@.chain.len() > 0 ==> ((e == BlockchainError::PoWNotMet && mining_exhausted(
                        old(self)@,
                        miner_address@,
                    )) || exists|b: BlockView|
                        mined_block(old(self)@, miner_address@, b) && add_block_spec(old(self)@, b) == Err::<
                            ChainState,
                            BlockchainError,
                        >(e))
                },
            },
    {
        let ghost miner = miner_address@;
        let ghost s = self@;
        let height = self.chain.len();
        proof {
            assert(s.chain.len() == height);
        }
        let coinbase_time = now_timestamp();
        let block_time = now_timestamp();
        let res = self.mine_block_from_mempool_at(miner_address, coinbase_time, block_time);
        proof {
            let cand = candidate_block(s, miner, coinbase_time, block_time);
            if s.chain.len() > 0 {
                assert(cand.index == s.chain.len());
                assert(cand.transactions == seq![coinbase_view(miner, coinbase_time)] + staged_transactions(s));
                assert forall|n: u64| first_winning_nonce(cand, s.prefix, 0, n) implies mined_block(
                    s,
                    miner,
                    #[trigger] with_nonce(cand, n),
                ) by {
                    let b = with_nonce(cand, n);
                    assert forall|m: u64| #[trigger] nonce_wins(b, s.prefix, m) == nonce_wins(cand, s.prefix, m) by {
                        assert(hash_with_nonce(b, m) == hash_with_nonce(cand, m));
                    }
                    assert(hash_with_nonce(b, n) == hash_with_nonce(cand, n));
                }
                if res is Ok {
                    let b = res->Ok_0;
                    assert(with_nonce(cand, b.nonce).nonce == b.nonce);
                } else {
                    let e = res->Err_0;
                    {
                        if !(e == BlockchainError::PoWNotMet && mining_fails_at(s, miner, coinbase_time, block_time)) {
                            let n = choose|n: u64|
                                first_winning_nonce(cand, s.prefix, 0, n) && add_block_spec(s, with_nonce(cand, n))
                                    == Err::<ChainState, BlockchainError>(e);
                            assert(with_nonce(cand, n).nonce == n);
                            assert(mined_block(s, miner, with_nonce(cand, n)));
                        }
                    }
                }
            }
        }
        res
    }

    /// Mines a block on top of the chain with coinbase timestamp `coinbase_time` and
    /// block timestamp `block_time`: a coinbase paying the block reward to
    /// `miner_address`, then the staged pool transactions, mined from nonce 0 up; then
    /// adds it as `add_block` does and gives it. Fails with `MissingData` on an empty
    /// chain, with `PoWNotMet` where no nonce wins, and with the error adding gives
    /// otherwise; on an error nothing changes. Where the chain has blocks but no pool
    /// transaction would be staged, the block would hold the coinbase alone, whose
    /// Merkle tree would have one leaf: that is not accepted.
    pub fn mine_block_from_mempool_at(
        &mut self,
        miner_address: String,
        coinbase_time: i64,
        block_time: i64,
    ) -> (res: Result<Block, BlockchainError>)
        requires
            !(old(self)@.chain.len() > 0 && staged_transactions(old(self)@).len() == 0),
        ensures
            match res {
                Ok(b) => {
                    &&& old(self)@.chain.len() > 0
                    &&& first_winning_nonce(
                        candidate_block(old(self)@, miner_address@, coinbase_time, block_time),
                        old(self)@.prefix,
                        0,
                        b.nonce,
                    )
                    &&& b@ == with_nonce(
                        candidate_block(old(self)@, miner_address@, coinbase_time, block_time),
                        b.nonce,
                    )
                    &&& add_block_spec(old(self)@, b@) == Ok::<ChainState, BlockchainError>(final(self)@)
                },
                Err(e) => {
                    &&& final(self)@ == old(self)@
                    &&& old(self)@.chain.len() == 0 ==> e == BlockchainError::MissingData("chain tip")
                    &&& old(self)@.chain.len() > 0 ==> ((e == BlockchainError::PoWNotMet && mining_fails_at(
                        old(self)@,
                        miner_address@,
                        coinbase_time,
                        block_time,
                    )) || exists|n: u64|
                        first_winning_nonce(
                            candidate_block(old(self)@, miner_address@, coinbase_time, block_time),
                            old(self)@.prefix,
                            0,
                            n,
                        ) && add_block_spec(
                            old(self)@,
                            with_nonce(candidate_block(old(self)@, miner_address@, coinbase_time, block_time), n),
                        ) == Err::<ChainState, BlockchainError>(e))
                },
            },
    {
        let ghost miner = miner_address@;
        let ghost s = self@;
        let coinbase = Transaction {
            inputs: Vec::new(),
            outputs: vec![TxOut { value: BLOCK_REWARD, address: miner_address }],
            timestamp: coinbase_time,
        };
        proof {
            assert(coinbase@ =~= coinbase_view(miner, coinbase_time));
        }
        let mut transactions: Vec<Transaction> = Vec::new();
        transactions.push(coinbase);
        let mut staged = self.stage_mempool();
        transactions.append(&mut staged);
        let ghost txs = transactions_view(transactions@);
        proof {
            assert(txs =~= seq![coinbase_view(miner, coinbase_time)] + staged_transactions(self@));
        }
        let previous_hash = match self.tip_hash() {
            Ok(h) => h,
            Err(e) => return Err(e),
        };
        let index = self.chain.len() as u64;
        let ghost cand = candidate_block(s, miner, coinbase_time, block_time);
        proof {
            assert(unmined_block(index, block_time, txs, previous_hash@) == cand);
        }
        let block = match Block::mine_at(
            index,
            block_time,
            transactions,
            previous_hash,
            self.difficulty_prefix.as_str(),
        ) {
            Ok(b) => b,
            Err(e) => {
                proof {
                    assert(mining_fails_at(s, miner, coinbase_time, block_time));
                }
                return Err(e);
            },
        };
        match self.add_block(block.clone()) {
            Ok(()) => Ok(block),
            Err(e) => {
                proof {
                    assert(first_winning_nonce(cand, s.prefix, 0, block.nonce));
                }
                Err(e)
            },
        }
    }

    /// Mines as `mine_block_from_mempool` does, or gives `None`, changing nothing,
    /// where it does not accept the state.
    pub fn try_mine_block_from_mempool(&mut self, miner_address: String) -> (res: Option<Result<Block, BlockchainError>>)
        ensures
            res is None <==> (old(self)@.chain.len() > 0 && staged_transactions(old(self)@).len() == 0),
            res is None ==> final(self)@ == old(self)@,
            res matches Some(r) ==> match r {
                Ok(b) => mined_block(old(self)@, miner_address@, b@) && add_block_spec(old(self)@, b@)
                    == Ok::<ChainState, BlockchainError>(final(self)@),
                Err(e) => {
                    &&& final(self)@ == old(self)@
                    &&& old(self)@.chain.len() == 0 ==> e == BlockchainError::MissingData("chain tip")
                    &&& old(self)@.chain.len() > 0 ==> ((e == BlockchainError::PoWNotMet && mining_exhausted(
                        old(self)@,
                        miner_address@,
                    )) || exists|b: BlockView|
                        mined_block(old(self)@, miner_address@, b) && add_block_spec(old(self)@, b) == Err::<
                            ChainState,
                            BlockchainError,
                        >(e))
                },
            },
    {
        if self.chain.len() > 0 && self.stage_mempool().len() == 0 {
            return None;
        }
        Some(self.mine_block_from_mempool(miner_address))
    }
}

/// Partial balances never pass the full balance.
proof fn lemma_balance_prefix(listing: Seq<(crate::transaction::OutPointView, crate::transaction::TxOutView)>, address: Seq<char>, k: int)
    requires
        0 <= k <= listing.len(),
    ensures
        balance_in(listing.take(k), address) <= balance_in(listing, address),
    decreases listing.len() - k,
{
    if k < listing.len() {
        lemma_balance_prefix(listing, address, k + 1);
        assert(listing.take(k + 1).drop_last() =~= listing.take(k));
    } else {
        assert(listing.take(k) =~= listing);
    }
}

impl Blockchain {
    /// The sum of the unspent outputs locked to `address`. The sum must fit in 64 bits.
    pub fn get_balance(&self, address: &str) -> (balance: u64)
        requires
            balance_in(self.utxo_set.listing(), address@) <= u64::MAX,
        ensures
            balance == balance_in(self.utxo_set.listing(), address@),
    {
        let entries = self.utxo_set.entries();
        let ghost listing = self.utxo_set.listing();
        let mut sum: u64 = 0;
        let mut i: usize = 0;
        while i < entries.len()
            invariant
                i <= entries@.len(),
                listing == entries@.map_values(|e: (OutPoint, TxOut)| (e.0@, e.1@)),
                balance_in(listing, address@) <= u64::MAX,
                sum == balance_in(listing.take(i as int), address@),
            decreases entries@.len() - i,
        {
            proof {
                assert(listing[i as int] == (entries@[i as int].0@, entries@[i as int].1@));
                assert(listing.take(i + 1).drop_last() =~= listing.take(i as int));
                lemma_balance_prefix(listing, address@, i + 1);
            }
            if text_eq(entries[i].1.address.as_str(), address) {
                sum = sum + entries[i].1.value;
            }
            i = i + 1;
        }
        proof {
            assert(listing.take(i as int) =~= listing);
        }
        sum
    }

    /// Copies of the unspent outputs locked to `address`, in the set's order.
    pub fn utxos_for_address(&self, address: &str) -> (found: Vec<(OutPoint, TxOut)>)
        ensures
            entries_view(found@) == entries_for_address(self.utxo_set.listing(), address@),
    {
        let entries = self.utxo_set.entries();
        let ghost listing = self.utxo_set.listing();
        let ghost pred = |e: (crate::transaction::OutPointView, crate::transaction::TxOutView)| e.1.address == address@;
        let mut found: Vec<(OutPoint, TxOut)> = Vec::new();
        let mut i: usize = 0;
        while i < entries.len()
            invariant
                i <= entries@.len(),
                listing == entries@.map_values(|e: (OutPoint, TxOut)| (e.0@, e.1@)),
                pred == (|e: (crate::transaction::OutPointView, crate::transaction::TxOutView)| e.1.address == address@),
                entries_view(found@) == listing.take(i as int).filter(pred),
            decreases entries@.len() - i,
        {
            let ghost e = listing[i as int];
            proof {
                assert(e == (entries@[i as int].0@, entries@[i as int].1@));
                assert(listing.take(i + 1) =~= listing.take(i as int).push(e));
                listing.take(i as int).lemma_filter_push(e, pred);
            }
            if text_eq(entries[i].1.address.as_str(), address) {
                let ghost before = found@;
                found.push((entries[i].0.clone(), entries[i].1.clone()));
                proof {
                    assert(entries_view(found@) =~= entries_view(before).push(e));
                }
            }
            i = i + 1;
        }
        proof {
            assert(listing.take(i as int) =~= listing);
        }
        found
    }

    /// Picks unspent outputs of `address` to pay `amount`: in out-point order, the
    /// shortest non-empty run from the start whose values reach `amount`. `None` when
    /// the outputs do not reach it, or when the running total would pass 2^64 - 1
    /// first.
    pub fn select_utxos_for_amount(&self, address: &str, amount: u64) -> (res: Option<Vec<(OutPoint, TxOut)>>)
        ensures
            exists|s: Seq<(crate::transaction::OutPointView, crate::transaction::TxOutView)>|
                #[trigger] sorted_entries_for_address(s, self.utxo_set.listing(), address@) && match res {
                    Some(v) => selection_from(s, amount) == Some(entries_view(v@)),
                    None => selection_from(s, amount) is None,
                },
    {
        let selected = sort_by_out_point(self.utxos_for_address(address));
        let ghost s = entries_view(selected@);
        proof {
            assert(sorted_entries_for_address(s, self.utxo_set.listing(), address@));
        }
        let mut total: u64 = 0;
        let mut chosen: Vec<(OutPoint, TxOut)> = Vec::new();
        let mut i: usize = 0;
        proof {
            assert(entries_view(chosen@) =~= s.take(0));
        }
        while i < selected.len()
            invariant
                i <= selected@.len(),
                s == entries_view(selected@),
                sorted_entries_for_address(s, self.utxo_set.listing(), address@),
                selection_count(s, amount, 0, 0) == selection_count(s, amount, i as nat, total as int),
                entries_view(chosen@) == s.take(i as int),
            decreases selected@.len() - i,
        {
            proof {
                assert(s[i as int] == (selected@[i as int].0@, selected@[i as int].1@));
            }
            total = match total.checked_add(selected[i].1.value) {
                Some(t) => t,
                None => return None,
            };
            let ghost before = chosen@;
            chosen.push((selected[i].0.clone(), selected[i].1.clone()));
            proof {
                assert(s.len() == selected@.len());
                assert(s.take(i as int).len() == i);
                assert(entries_view(before).len() == before.len());
                assert(before.len() == i);
                assert(chosen@ =~= before.push(chosen@[i as int]));
                assert(entries_view(chosen@) =~= entries_view(before).push(s[i as int]));
                assert(s.take(i + 1) =~= s.take(i as int).push(s[i as int]));
            }
            if total >= amount {
                return Some(chosen);
            }
            i = i + 1;
        }
        None
    }
}

/// The difficulty prefix a node starts with.
pub const DEFAULT_DIFFICULTY_PREFIX: &'static str = "0000";

impl Blockchain {
    /// The state of a node whose store holds `chain`: when the store holds no block,
    /// a first block is mined (with the default prefix) and the chain holds it alone;
    /// the unspent outputs are rebuilt from the chain's transactions; the pool is
    /// empty; the prefix is the default one.
    pub fn from_blocks(chain: Vec<Block>) -> (res: Result<Blockchain, BlockchainError>)
        ensures
            match res {
                Ok(bc) => {
                    &&& bc@.prefix == default_difficulty_prefix()
                    &&& bc@.pool == Seq::<TransactionView>::empty()
                    &&& chain@.len() > 0 ==> bc@.chain == blocks_view(chain@)
                    &&& chain@.len() == 0 ==> bc@.chain.len() == 1 && genesis_block(
                        bc@.chain[0],
                        default_difficulty_prefix(),
                    )
                    &&& rebuild_state(bc@.chain, bc@.chain.len()) == Ok::<UtxoMap, BlockchainError>(bc@.utxo)
                },
                Err(e) => {
                    ||| chain@.len() > 0 && rebuild_state(blocks_view(chain@), chain@.len()) == Err::<
                        UtxoMap,
                        BlockchainError,
                    >(e)
                    ||| chain@.len() == 0 && e == BlockchainError::PoWNotMet && exists|timestamp: i64|
                        no_winning_nonce(
                            0,
                            timestamp,
                            genesis_previous_hash(),
                            transactions_merkle_root(Seq::<TransactionView>::empty()),
                            default_difficulty_prefix(),
                        )
                },
            },
    {
        let difficulty_prefix = String::from_str(DEFAULT_DIFFICULTY_PREFIX);
        proof {
            reveal_strlit("0000");
            assert(difficulty_prefix@ =~= default_difficulty_prefix());
        }
        let mut chain = chain;
        if chain.len() == 0 {
            let no_transactions: Vec<Transaction> = Vec::new();
            proof {
                assert(transactions_view(no_transactions@) =~= Seq::<TransactionView>::empty());
            }
            let genesis = match Block::new(
                0,
                no_transactions,
                genesis_previous_hash_text(),
                difficulty_prefix.as_str(),
            ) {
                Ok(b) => b,
                Err(e) => return Err(e),
            };
            proof {
                assert(genesis@.transactions =~= Seq::<TransactionView>::empty());
            }
            chain.push(genesis);
            proof {
                let blocks = blocks_view(chain@);
                assert(blocks[0] == genesis@);
                assert(block_txs_state(blocks[0].transactions, Map::empty(), 0) == Ok::<
                    (UtxoMap, bool),
                    BlockchainError,
                >((Map::empty(), false)));
                assert(blocks[0].transactions.len() == 0);
                assert(block_txs_outcome(blocks[0].transactions, Map::empty()) is Ok);
                assert(rebuild_state(blocks, 0) == Ok::<UtxoMap, BlockchainError>(Map::empty()));
                assert(rebuild_state(blocks, 1) is Ok);
            }
        }
        let ghost blocks = blocks_view(chain@);
        let utxo_set = match Self::rebuild_utxo_set(chain.as_slice()) {
            Ok(u) => u,
            Err(e) => return Err(e),
        };
        let bc = Blockchain { chain, utxo_set, mempool: Mempool::new(), difficulty_prefix };
        Ok(bc)
    }
}

} // verus!
