use vstd::prelude::*;

use crate::block::{
    first_winning_nonce, hash_with_nonce, merkle_check, nonce_wins, pow_check, transactions_merkle_root, BlockView,
};
use crate::chain_rules::{
    add_block_spec, apply_transaction, apply_transactions, block_txs_outcome, block_txs_state,
    candidate_hits_single_leaf, candidate_outcome, chain_block_step, chain_hits_single_leaf, chain_state,
    genesis_block, header_checks_pass, node_step, pool_without,
    rebuild_state, replace_chain_spec, state_consistent, validate_chain_spec, ChainState, UtxoMap,
};
use crate::error::BlockchainError;
use crate::mempool::{pool_has_id, pool_insert};
use crate::transaction::{
    inputs_state, output_total, tx_id, verify_spec, TransactionView,
};

verus! {

/// A transaction added to the pool is then found under its id.
pub proof fn lemma_added_transaction_is_contained(pool: Seq<TransactionView>, tx: TransactionView)
    ensures
        pool_has_id(pool_insert(pool, tx), tx_id(tx)),
{
    let p2 = pool_insert(pool, tx);
    if pool_has_id(pool, tx_id(tx)) {
        let j = choose|j: int| 0 <= j < pool.len() && tx_id(#[trigger] pool[j]) == tx_id(tx);
        assert(p2[j] == tx);
    } else {
        assert(p2[pool.len() as int] == tx);
    }
}

/// After the transactions with listed ids are removed, no transaction with a listed
/// id is found.
pub proof fn lemma_removed_transaction_is_not_contained(
    pool: Seq<TransactionView>,
    ids: Seq<Seq<char>>,
    id: Seq<char>,
)
    requires
        ids.contains(id),
    ensures
        !pool_has_id(pool_without(pool, ids), id),
{
    let pred = |t: TransactionView| !ids.contains(tx_id(t));
    let kept = pool.filter(pred);
    broadcast use vstd::seq_lib::group_filter_ensures;
    if pool_has_id(kept, id) {
        let j = choose|j: int| 0 <= j < kept.len() && tx_id(#[trigger] kept[j]) == id;
        assert(pred(kept[j]));
    }
}

/// A transaction without inputs, with outputs that all name an address, passes the
/// transaction check against any unspent outputs.
pub proof fn lemma_coinbase_verifies(tx: TransactionView, utxo: UtxoMap)
    requires
        tx.inputs.len() == 0,
        tx.outputs.len() > 0,
        forall|i: int| 0 <= i < tx.outputs.len() ==> (#[trigger] tx.outputs[i]).address.len() > 0,
    ensures
        verify_spec(tx, utxo) == Ok::<(), BlockchainError>(()),
{
    reveal(verify_spec);
}

/// The value that the first `k` inputs of a transaction spend from `utxo`.
pub open spec fn spent_value(tx: TransactionView, utxo: UtxoMap, k: nat) -> int
    decreases k,
{
    if k == 0 {
        0
    } else {
        spent_value(tx, utxo, (k - 1) as nat) + utxo[tx.inputs[k - 1].prev_out].value
    }
}

proof fn lemma_inputs_state_total(tx: TransactionView, utxo: UtxoMap, k: nat)
    requires
        inputs_state(tx, utxo, k) is Ok,
    ensures
        inputs_state(tx, utxo, k) == Ok::<int, BlockchainError>(spent_value(tx, utxo, k)),
    decreases k,
{
    if k > 0 {
        lemma_inputs_state_total(tx, utxo, (k - 1) as nat);
    }
}

/// A transaction with inputs that passes the check creates no value: its outputs
/// add up to at most what its inputs spend.
pub proof fn lemma_verified_transaction_conserves_value(tx: TransactionView, utxo: UtxoMap)
    requires
        tx.inputs.len() > 0,
        verify_spec(tx, utxo) is Ok,
    ensures
        output_total(tx.outputs) <= spent_value(tx, utxo, tx.inputs.len()),
        output_total(tx.outputs) <= u64::MAX,
{
    reveal(verify_spec);
    lemma_inputs_state_total(tx, utxo, tx.inputs.len());
}

/// A block as `Block::new` and `Block::mine_block` leave it passes the
/// proof-of-work check and the Merkle-root check.
pub proof fn lemma_mined_block_passes_checks(b: BlockView, prefix: Seq<char>)
    requires
        b.merkle_root == transactions_merkle_root(b.transactions),
        first_winning_nonce(b, prefix, 0, b.nonce),
        b.hash == hash_with_nonce(b, b.nonce),
    ensures
        pow_check(b, prefix) == Ok::<(), BlockchainError>(()),
        merkle_check(b) == Ok::<(), BlockchainError>(()),
{
}

/// Checking the first `k` blocks looks at those blocks only.
proof fn lemma_chain_state_prefix(a: Seq<BlockView>, b: Seq<BlockView>, k: nat, prefix: Seq<char>)
    requires
        k <= a.len(),
        k <= b.len(),
        forall|i: int| 0 <= i < k ==> a[i] == b[i],
    ensures
        chain_state(a, k, prefix) == chain_state(b, k, prefix),
    decreases k,
{
    if k > 0 {
        lemma_chain_state_prefix(a, b, (k - 1) as nat, prefix);
        match chain_state(a, (k - 1) as nat, prefix) {
            Ok(m) => {
                assert(chain_block_step(a, k - 1, m, prefix) == chain_block_step(b, k - 1, m, prefix)) by {
                    reveal(chain_block_step);
                }
            },
            Err(_) => {},
        }
    }
}

/// A block accepted on top of a valid chain leaves a valid chain: the chain with the
/// block appended passes validation and leaves exactly the unspent outputs that adding
/// the block produced.
pub proof fn lemma_add_block_keeps_chain_valid(s: ChainState, b: BlockView)
    requires
        validate_chain_spec(s.chain, s.prefix) == Ok::<UtxoMap, BlockchainError>(s.utxo),
        add_block_spec(s, b) is Ok,
    ensures
        validate_chain_spec(add_block_spec(s, b)->Ok_0.chain, s.prefix) == Ok::<UtxoMap, BlockchainError>(
            add_block_spec(s, b)->Ok_0.utxo,
        ),
{
    let n = s.chain.len();
    let c2 = s.chain.push(b);
    let m = candidate_outcome(s, b)->Ok_0;
    lemma_chain_state_prefix(s.chain, c2, n, s.prefix);
    assert(c2[0] == s.chain[0]);
    assert(chain_block_step(c2, n as int, s.utxo, s.prefix) == Ok::<UtxoMap, BlockchainError>(m)) by {
        reveal(chain_block_step);
        assert(c2[n as int] == b);
        assert(c2[n - 1] == s.chain.last());
    }
    assert(chain_state(c2, (n + 1) as nat, s.prefix) == Ok::<UtxoMap, BlockchainError>(m));
}

proof fn lemma_chain_state_ok_prefix(blocks: Seq<BlockView>, prefix: Seq<char>, k: nat)
    requires
        chain_state(blocks, k, prefix) is Ok,
    ensures
        rebuild_state(blocks, k) == chain_state(blocks, k, prefix),
    decreases k,
{
    if k > 0 {
        assert(chain_state(blocks, (k - 1) as nat, prefix) is Ok);
        lemma_chain_state_ok_prefix(blocks, prefix, (k - 1) as nat);
        let m0 = chain_state(blocks, (k - 1) as nat, prefix)->Ok_0;
        assert(chain_block_step(blocks, k - 1, m0, prefix) is Ok ==> chain_block_step(
            blocks,
            k - 1,
            m0,
            prefix,
        ) == block_txs_outcome(blocks[k - 1].transactions, m0)) by {
            reveal(chain_block_step);
        }
    }
}

/// For a chain that passes validation, rebuilding the unspent outputs from its
/// transactions (as a node does when it opens its store) gives the outputs that
/// validation gives.
pub proof fn lemma_rebuild_agrees_with_validation(blocks: Seq<BlockView>, prefix: Seq<char>)
    requires
        validate_chain_spec(blocks, prefix) is Ok,
    ensures
        rebuild_state(blocks, blocks.len()) == validate_chain_spec(blocks, prefix),
{
    lemma_chain_state_ok_prefix(blocks, prefix, blocks.len());
}

/// A block whose transactions no longer give its recorded Merkle root fails the
/// Merkle-root check with `InvalidMerkleRoot`.
pub proof fn lemma_tampered_transactions_fail_merkle_check(b: BlockView, txs: Seq<TransactionView>)
    requires
        transactions_merkle_root(txs) != b.merkle_root,
    ensures
        merkle_check(BlockView { transactions: txs, ..b }) == Err::<(), BlockchainError>(
            BlockchainError::InvalidMerkleRoot,
        ),
{
}

/// Applying transactions one list after another is applying the joined list.
pub proof fn lemma_apply_transactions_concat(m: UtxoMap, a: Seq<TransactionView>, b: Seq<TransactionView>)
    ensures
        apply_transactions(m, a + b) == apply_transactions(apply_transactions(m, a), b),
    decreases b.len(),
{
    if b.len() == 0 {
        assert(a + b =~= a);
    } else {
        lemma_apply_transactions_concat(m, a, b.drop_last());
        assert((a + b).drop_last() =~= a + b.drop_last());
        assert((a + b).last() == b.last());
    }
}

/// Applying a single transaction is `apply_transaction`: its spent out-points leave,
/// then its outputs arrive under its id.
pub proof fn lemma_apply_single_transaction(m: UtxoMap, t: TransactionView)
    ensures
        apply_transactions(m, seq![t]) == apply_transaction(m, t),
{
    let one = seq![t];
    assert(one.drop_last() =~= Seq::<TransactionView>::empty());
    assert(apply_transactions(m, one.drop_last()) == m);
    assert(one.last() == t);
}

/// The state a node starts from with an empty store (its first block mined, outputs
/// rebuilt from it) is consistent: validating its chain gives its outputs, and reaches
/// no block with a single transaction.
pub proof fn lemma_fresh_node_is_consistent(s: ChainState)
    requires
        s.chain.len() == 1,
        genesis_block(s.chain[0], s.prefix),
        rebuild_state(s.chain, 1) == Ok::<UtxoMap, BlockchainError>(s.utxo),
    ensures
        state_consistent(s),
{
    let b = s.chain[0];
    assert(block_txs_state(b.transactions, Map::empty(), 0) == Ok::<(UtxoMap, bool), BlockchainError>(
        (Map::empty(), false),
    ));
    assert(block_txs_outcome(b.transactions, Map::empty()) == Ok::<UtxoMap, BlockchainError>(Map::empty()));
    assert(rebuild_state(s.chain, 0) == Ok::<UtxoMap, BlockchainError>(Map::empty()));
    assert(nonce_wins(b, s.prefix, b.nonce));
    assert(pow_check(b, s.prefix) == Ok::<(), BlockchainError>(()));
    assert(merkle_check(b) == Ok::<(), BlockchainError>(()));
    assert(chain_block_step(s.chain, 0, Map::empty(), s.prefix) == Ok::<UtxoMap, BlockchainError>(Map::empty()))
        by {
        reveal(chain_block_step);
    }
    assert(chain_state(s.chain, 0, s.prefix) == Ok::<UtxoMap, BlockchainError>(Map::empty()));
}

/// Every operation of a node keeps its state consistent: after adding or mining a
/// block, replacing the chain, adding to the pool, or a failed operation, validating
/// the chain still gives the unspent outputs and reaches no block with a single
/// transaction.
pub proof fn lemma_node_step_keeps_state_consistent(s: ChainState, s2: ChainState)
    requires
        state_consistent(s),
        node_step(s, s2),
    ensures
        state_consistent(s2),
{
    if s2 == s {
    } else if exists|b: BlockView|
        !candidate_hits_single_leaf(s, b) && add_block_spec(s, b) == Ok::<ChainState, BlockchainError>(s2) {
        let b = choose|b: BlockView|
            !candidate_hits_single_leaf(s, b) && add_block_spec(s, b) == Ok::<ChainState, BlockchainError>(s2);
        lemma_add_block_keeps_chain_valid(s, b);
        lemma_add_block_keeps_no_single_leaf(s, b);
    } else if exists|c: Seq<BlockView>|
        !chain_hits_single_leaf(c, s.prefix) && replace_chain_spec(s, c) == Ok::<ChainState, BlockchainError>(s2) {
    } else {
    }
}

/// A block the node accepts on top of a consistent state leaves a chain whose check
/// reaches no block with a single transaction.
proof fn lemma_add_block_keeps_no_single_leaf(s: ChainState, b: BlockView)
    requires
        state_consistent(s),
        !candidate_hits_single_leaf(s, b),
        add_block_spec(s, b) is Ok,
    ensures
        !chain_hits_single_leaf(s.chain.push(b), s.prefix),
{
    let n = s.chain.len();
    let c2 = s.chain.push(b);
    assert(n > 0);
    assert(c2[0] == s.chain[0]);
    if chain_hits_single_leaf(c2, s.prefix) {
        let p = choose|p: int|
            0 <= p < c2.len() && chain_state(c2, p as nat, s.prefix) is Ok && header_checks_pass(c2, p, s.prefix)
                && (#[trigger] c2[p]).transactions.len() == 1;
        if p < n {
            lemma_chain_state_prefix(s.chain, c2, p as nat, s.prefix);
            assert(c2[p] == s.chain[p]);
            if p > 0 {
                assert(c2[p - 1] == s.chain[p - 1]);
            }
            assert(header_checks_pass(s.chain, p, s.prefix));
            assert(chain_hits_single_leaf(s.chain, s.prefix));
        } else {
            assert(c2[p] == b);
            assert(c2[p - 1] == s.chain.last());
            assert(candidate_hits_single_leaf(s, b));
        }
    }
}

/// In a consistent state the chain passes validation without reaching a block with a
/// single transaction, and validation gives the state's unspent outputs: exactly what
/// `Blockchain::validate_chain` needs of its argument and then returns.
pub proof fn lemma_consistent_chain_validates(s: ChainState)
    requires
        state_consistent(s),
    ensures
        !chain_hits_single_leaf(s.chain, s.prefix),
        validate_chain_spec(s.chain, s.prefix) == Ok::<UtxoMap, BlockchainError>(s.utxo),
{
}

/// Over any run of operations from a consistent state, the state stays consistent.
pub proof fn lemma_node_run_keeps_state_consistent(states: Seq<ChainState>)
    requires
        states.len() > 0,
        state_consistent(states[0]),
        forall|i: int| 0 <= i < states.len() - 1 ==> node_step(#[trigger] states[i], states[i + 1]),
    ensures
        state_consistent(states.last()),
    decreases states.len(),
{
    if states.len() > 1 {
        let prefix = states.drop_last();
        assert forall|i: int| 0 <= i < prefix.len() - 1 implies node_step(#[trigger] prefix[i], prefix[i + 1]) by {
            assert(node_step(states[i], states[i + 1]));
        }
        lemma_node_run_keeps_state_consistent(prefix);
        let k = states.len() - 2;
        assert(node_step(states[k], states[k + 1]));
        lemma_node_step_keeps_state_consistent(states[k], states[k + 1]);
    }
}

/// Reopening a store that holds the chain of a consistent state gives that state's
/// chain and unspent outputs back: the chain is not empty, so it is kept, and
/// rebuilding its outputs gives the state's outputs.
pub proof fn lemma_reopen_restores_state(s: ChainState, reopened: ChainState)
    requires
        state_consistent(s),
        reopened.chain == s.chain,
        rebuild_state(reopened.chain, reopened.chain.len()) == Ok::<UtxoMap, BlockchainError>(reopened.utxo),
    ensures
        s.chain.len() > 0,
        reopened.utxo == s.utxo,
{
    lemma_rebuild_agrees_with_validation(s.chain, s.prefix);
}

} // verus!
