use vstd::prelude::*;
use vstd::utf8::encode_utf8;

use crate::block::{hash_with_nonce, pow_check, transactions_merkle_root, BlockView};
use crate::chain_rules::{
    add_block_spec, balance_in, chain_block_step, chain_state, genesis_previous_hash, validate_chain_spec,
    ChainState,
};
use crate::error::BlockchainError;
use crate::transaction::{output_total, OutPointView, TxOutView};
use crate::wallet::payment_outputs;

verus! {

/// A block's proof of work passes exactly when its stored hash is the hash of its
/// header with its nonce and the UTF-8 bytes of that hash begin with every byte of the
/// difficulty prefix. A wrong stored hash is `InvalidBlockHash`; a right hash without
/// the whole prefix is `PoWNotMet`.
pub proof fn lemma_pow_check_needs_whole_prefix(b: BlockView, prefix: Seq<char>)
    ensures
        pow_check(b, prefix) is Ok <==> {
            &&& b.hash == hash_with_nonce(b, b.nonce)
            &&& encode_utf8(prefix).len() <= encode_utf8(b.hash).len()
            &&& forall|i: int|
                0 <= i < encode_utf8(prefix).len() ==> encode_utf8(b.hash)[i] == encode_utf8(prefix)[i]
        },
        b.hash != hash_with_nonce(b, b.nonce) ==> pow_check(b, prefix) == Err::<(), BlockchainError>(
            BlockchainError::InvalidBlockHash,
        ),
        b.hash == hash_with_nonce(b, b.nonce) && pow_check(b, prefix) is Err ==> pow_check(b, prefix)
            == Err::<(), BlockchainError>(BlockchainError::PoWNotMet),
{
    let p = encode_utf8(prefix);
    let h = encode_utf8(b.hash);
    if p.len() <= h.len() && (forall|i: int| 0 <= i < p.len() ==> h[i] == p[i]) {
        assert(p =~= h.subrange(0, p.len() as int));
    }
    if p.is_prefix_of(h) {
        assert forall|i: int| 0 <= i < p.len() implies h[i] == p[i] by {
            assert(h.subrange(0, p.len() as int)[i] == h[i]);
        }
    }
}

/// What checking the first `k` blocks of a chain passes guarantees of each of them:
/// its position as index, a link to the block before it, a valid proof of work and
/// the Merkle root of its transactions.
proof fn lemma_checked_blocks(blocks: Seq<BlockView>, prefix: Seq<char>, k: nat)
    requires
        k <= blocks.len(),
        chain_state(blocks, k, prefix) is Ok,
    ensures
        forall|p: int|
            0 <= p < k ==> {
                &&& (#[trigger] blocks[p]).index == p
                &&& (p > 0 ==> blocks[p].previous_hash == blocks[p - 1].hash)
                &&& pow_check(blocks[p], prefix) is Ok
                &&& blocks[p].merkle_root == transactions_merkle_root(blocks[p].transactions)
            },
    decreases k,
{
    if k > 0 {
        lemma_checked_blocks(blocks, prefix, (k - 1) as nat);
        let m = chain_state(blocks, (k - 1) as nat, prefix)->Ok_0;
        assert(chain_block_step(blocks, k - 1, m, prefix) is Ok);
        reveal(chain_block_step);
    }
}

/// A chain that passes validation is not empty, starts from the genesis previous
/// hash, and each of its blocks carries its position as index, links to the hash of
/// the block before it, carries a valid proof of work and records the Merkle root of
/// its own transactions.
pub proof fn lemma_valid_chain_is_linked(blocks: Seq<BlockView>, prefix: Seq<char>)
    requires
        validate_chain_spec(blocks, prefix) is Ok,
    ensures
        blocks.len() > 0,
        blocks[0].previous_hash == genesis_previous_hash(),
        forall|p: int| 0 < p < blocks.len() ==> (#[trigger] blocks[p]).previous_hash == blocks[p - 1].hash,
        forall|p: int|
            0 <= p < blocks.len() ==> {
                &&& (#[trigger] blocks[p]).index == p
                &&& pow_check(blocks[p], prefix) is Ok
                &&& blocks[p].merkle_root == transactions_merkle_root(blocks[p].transactions)
            },
{
    lemma_checked_blocks(blocks, prefix, blocks.len());
}

/// A block that the node accepts on top of a state links to the tip's hash, carries
/// the next index, a valid proof of work and the Merkle root of its own transactions;
/// the chain then is the old chain with the block appended, and the prefix stays.
pub proof fn lemma_accepted_block_is_checked(s: ChainState, b: BlockView)
    requires
        add_block_spec(s, b) is Ok,
    ensures
        s.chain.len() > 0,
        b.previous_hash == s.chain.last().hash,
        b.index == s.chain.len(),
        pow_check(b, s.prefix) is Ok,
        b.merkle_root == transactions_merkle_root(b.transactions),
        add_block_spec(s, b)->Ok_0.chain == s.chain.push(b),
        add_block_spec(s, b)->Ok_0.prefix == s.prefix,
{
}

/// The outputs of a payment: the amount goes to the payee first; a positive change
/// goes back to the payer as the second and last output; without change there is no
/// second output. Together they carry the amount plus the change.
pub proof fn lemma_change_returns_to_payer(to: Seq<char>, from: Seq<char>, amount: u64, change: u64)
    ensures
        payment_outputs(to, from, amount, change).len() == if change > 0 { 2int } else { 1int },
        payment_outputs(to, from, amount, change)[0] == (TxOutView { value: amount, address: to }),
        change > 0 ==> payment_outputs(to, from, amount, change)[1] == (TxOutView { value: change, address: from }),
        output_total(payment_outputs(to, from, amount, change)) == amount + change,
{
    let outs = payment_outputs(to, from, amount, change);
    if change > 0 {
        assert(outs.drop_last().drop_last() =~= Seq::<TxOutView>::empty());
        assert(outs.drop_last() =~= seq![TxOutView { value: amount, address: to }]);
        assert(output_total(outs.drop_last().drop_last()) == 0);
        assert(output_total(outs.drop_last()) == amount);
        assert(outs.last().value == change);
    } else {
        assert(outs.drop_last() =~= Seq::<TxOutView>::empty());
        assert(output_total(outs.drop_last()) == 0);
        assert(outs.last().value == amount);
    }
}

/// A covered payment spends exactly what was selected: the payment's outputs plus
/// the fee add up to the selected total, when the change is the total above amount
/// plus fee.
pub proof fn lemma_covered_payment_conserves_value(
    to: Seq<char>,
    from: Seq<char>,
    amount: u64,
    fee: u64,
    total: u64,
)
    requires
        amount + fee <= total,
    ensures
        output_total(payment_outputs(to, from, amount, (total - amount - fee) as u64)) + fee == total,
{
    lemma_change_returns_to_payer(to, from, amount, (total - amount - fee) as u64);
}

/// Balances add up over joined listings.
pub proof fn lemma_balance_concat(
    l1: Seq<(OutPointView, TxOutView)>,
    l2: Seq<(OutPointView, TxOutView)>,
    address: Seq<char>,
)
    ensures
        balance_in(l1 + l2, address) == balance_in(l1, address) + balance_in(l2, address),
    decreases l2.len(),
{
    if l2.len() == 0 {
        assert(l1 + l2 =~= l1);
    } else {
        lemma_balance_concat(l1, l2.drop_last(), address);
        assert((l1 + l2).drop_last() =~= l1 + l2.drop_last());
        assert((l1 + l2).last() == l2.last());
    }
}

/// The balance a single output gives: its value if it is locked to the address, else
/// nothing.
pub proof fn lemma_balance_of_one(e: (OutPointView, TxOutView), address: Seq<char>)
    ensures
        balance_in(seq![e], address) == if e.1.address == address { e.1.value as int } else { 0int },
{
    let one = seq![e];
    assert(one.drop_last() =~= Seq::<(OutPointView, TxOutView)>::empty());
    assert(balance_in(one.drop_last(), address) == 0);
    assert(one.last() == e);
}

/// An output locked to another address changes no balance, wherever it is listed;
/// an output locked to the address adds its value, wherever it is listed.
pub proof fn lemma_balance_counts_every_output_of_the_address(
    listing: Seq<(OutPointView, TxOutView)>,
    k: int,
    e: (OutPointView, TxOutView),
    address: Seq<char>,
)
    requires
        0 <= k <= listing.len(),
    ensures
        balance_in(listing.insert(k, e), address) == balance_in(listing, address) + if e.1.address
            == address {
            e.1.value as int
        } else {
            0int
        },
{
    let front = listing.take(k);
    let back = listing.skip(k);
    assert(listing.insert(k, e) =~= (front + seq![e]) + back);
    assert(listing =~= front + back);
    lemma_balance_concat(front + seq![e], back, address);
    lemma_balance_concat(front, seq![e], address);
    lemma_balance_concat(front, back, address);
    lemma_balance_of_one(e, address);
}

} // verus!
