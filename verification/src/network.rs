use vstd::prelude::*;

use crate::block::Block;
use crate::blockchain::{blocks_view, Blockchain};
use crate::chain_rules::{
    add_block_spec, candidate_hits_single_leaf, chain_hits_single_leaf, replace_chain_spec, ChainState,
};
use crate::encoding::{le_bytes, push_le_bytes};
use crate::error::BlockchainError;
use crate::mempool::pool_has_id;
use crate::transaction::{tx_id, verify_spec, Transaction};

verus! {

/// What nodes send each other.
#[derive(Debug)]
pub enum Message {
    NewTransaction(Transaction),
    NewBlock(Block),
    GetChain,
    Chain(Vec<Block>),
}

/// What handling a message from a peer came to.
#[derive(Debug)]
pub enum Outcome {
    /// The message asked for an answer: this one.
    Replied(Message),
    /// A transaction was offered to the pool, with what adding it gave.
    TransactionPooled(Result<String, BlockchainError>),
    /// A block was offered on top of the chain, with what adding it gave.
    BlockAdded(Result<(), BlockchainError>),
    /// A chain was offered in place of the local one, with what replacing gave.
    ChainReplaced(Result<(), BlockchainError>),
    /// Checking the offered block or chain would reach the Merkle check of a block
    /// with a single transaction; nothing was changed.
    SingleLeaf,
}

/// A copy of a list of blocks.
fn clone_blocks(blocks: &Vec<Block>) -> (copy: Vec<Block>)
    ensures
        blocks_view(copy@) == blocks_view(blocks@),
{
    let mut copy: Vec<Block> = Vec::new();
    let mut i: usize = 0;
    while i < blocks.len()
        invariant
            i <= blocks@.len(),
            copy@.len() == i,
            forall|j: int| 0 <= j < i ==> #[trigger] copy@[j]@ == blocks@[j]@,
        decreases blocks@.len() - i,
    {
        copy.push(blocks[i].clone());
        i = i + 1;
    }
    assert(blocks_view(copy@) =~= blocks_view(blocks@));
    copy
}

/// Handles a message from a peer: a transaction goes to the pool as
/// `Blockchain::add_to_mempool` puts it there, a block is added as
/// `Blockchain::add_block` adds it, a request for the chain is answered with a copy
/// of the chain, and a chain replaces the local one as `Blockchain::replace_chain`
/// does. Where adding or replacing would reach the Merkle check of a block with a
/// single transaction, nothing changes and the outcome says so.
pub fn respond(chain: &mut Blockchain, msg: Message) -> (outcome: Outcome)
    ensures
        match msg {
            Message::NewTransaction(tx) => outcome matches Outcome::TransactionPooled(r) && match verify_spec(
                tx@,
                old(chain)@.utxo,
            ) {
                Err(e) => r == Err::<String, BlockchainError>(e) && final(chain)@ == old(chain)@,
                Ok(_) => r matches Ok(id) && id@ == tx_id(tx@) && final(chain)@ == (if pool_has_id(
                    old(chain)@.pool,
                    tx_id(tx@),
                ) {
                    old(chain)@
                } else {
                    ChainState { pool: old(chain)@.pool.push(tx@), ..old(chain)@ }
                }),
            },
            Message::NewBlock(b) => if candidate_hits_single_leaf(old(chain)@, b@) {
                outcome is SingleLeaf && final(chain)@ == old(chain)@
            } else {
                outcome matches Outcome::BlockAdded(r) && match add_block_spec(old(chain)@, b@) {
                    Ok(s) => r is Ok && final(chain)@ == s,
                    Err(e) => r == Err::<(), BlockchainError>(e) && final(chain)@ == old(chain)@,
                }
            },
            Message::GetChain => {
                &&& final(chain)@ == old(chain)@
                &&& outcome matches Outcome::Replied(reply) && reply matches Message::Chain(blocks)
                    && blocks_view(blocks@) == old(chain)@.chain
            },
            Message::Chain(c) => if c@.len() > old(chain)@.chain.len() && chain_hits_single_leaf(
                blocks_view(c@),
                old(chain)@.prefix,
            ) {
                outcome is SingleLeaf && final(chain)@ == old(chain)@
            } else {
                outcome matches Outcome::ChainReplaced(r) && match replace_chain_spec(
                    old(chain)@,
                    blocks_view(c@),
                ) {
                    Ok(s) => r is Ok && final(chain)@ == s,
                    Err(e) => r == Err::<(), BlockchainError>(e) && final(chain)@ == old(chain)@,
                }
            },
        },
{
    match msg {
        Message::NewTransaction(tx) => Outcome::TransactionPooled(chain.add_to_mempool(tx)),
        Message::NewBlock(block) => match chain.try_add_block(block) {
            Some(r) => Outcome::BlockAdded(r),
            None => Outcome::SingleLeaf,
        },
        Message::GetChain => Outcome::Replied(Message::Chain(clone_blocks(&chain.chain))),
        Message::Chain(blocks) => match chain.try_replace_chain(blocks) {
            Some(r) => Outcome::ChainReplaced(r),
            None => Outcome::SingleLeaf,
        },
    }
}

/// Whether `c` has the Unicode White_Space property.
pub open spec fn is_white_space(c: char) -> bool {
    ||| ('\u{9}' <= c && c <= '\u{d}')
    ||| c == ' '
    ||| c == '\u{85}'
    ||| c == '\u{a0}'
    ||| c == '\u{1680}'
    ||| ('\u{2000}' <= c && c <= '\u{200a}')
    ||| c == '\u{2028}'
    ||| c == '\u{2029}'
    ||| c == '\u{202f}'
    ||| c == '\u{205f}'
    ||| c == '\u{3000}'
}

/// The text without its leading white space.
pub open spec fn trim_start_spec(s: Seq<char>) -> Seq<char>
    decreases s.len(),
{
    if s.len() > 0 && is_white_space(s[0]) {
        trim_start_spec(s.drop_first())
    } else {
        s
    }
}

/// The text without its trailing characters that satisfy `pred`.
pub open spec fn trim_end_by(s: Seq<char>, pred: spec_fn(char) -> bool) -> Seq<char>
    decreases s.len(),
{
    if s.len() > 0 && pred(s.last()) {
        trim_end_by(s.drop_last(), pred)
    } else {
        s
    }
}

/// A peer address as nodes keep it: without surrounding white space, then without
/// trailing slashes.
pub open spec fn normalize_peer_spec(peer: Seq<char>) -> Seq<char> {
    trim_end_by(
        trim_end_by(trim_start_spec(peer), |c: char| is_white_space(c)),
        |c: char| c == '/',
    )
}

fn white_space(c: char) -> (b: bool)
    ensures
        b == is_white_space(c),
{
    ('\u{9}' <= c && c <= '\u{d}') || c == ' ' || c == '\u{85}' || c == '\u{a0}' || c == '\u{1680}'
        || ('\u{2000}' <= c && c <= '\u{200a}') || c == '\u{2028}' || c == '\u{2029}' || c
        == '\u{202f}' || c == '\u{205f}' || c == '\u{3000}'
}

/// Strips white space around a peer address, then trailing slashes.
pub fn normalize_peer(peer: &str) -> (normalized: String)
    ensures
        normalized@ == normalize_peer_spec(peer@),
{
    let n = peer.unicode_len();
    let ghost s = peer@;
    let mut start: usize = 0;
    proof {
        assert(s.skip(0) =~= s);
    }
    while start < n && white_space(peer.get_char(start))
        invariant
            n == s.len(),
            s == peer@,
            start <= n,
            trim_start_spec(s) == trim_start_spec(s.skip(start as int)),
        decreases n - start,
    {
        proof {
            assert(s.skip(start as int).drop_first() =~= s.skip(start + 1));
        }
        start = start + 1;
    }
    let ghost t = s.skip(start as int);
    proof {
        assert(trim_start_spec(s) == t);
    }
    let mut end: usize = n;
    proof {
        assert(s.subrange(start as int, n as int) =~= t);
    }
    while end > start && white_space(peer.get_char(end - 1))
        invariant
            n == s.len(),
            s == peer@,
            start <= end <= n,
            t == s.skip(start as int),
            trim_end_by(t, |c: char| is_white_space(c)) == trim_end_by(
                s.subrange(start as int, end as int),
                |c: char| is_white_space(c),
            ),
        decreases end,
    {
        proof {
            assert(s.subrange(start as int, end as int).drop_last() =~= s.subrange(start as int, end - 1));
        }
        end = end - 1;
    }
    let ghost u = s.subrange(start as int, end as int);
    proof {
        assert(trim_end_by(t, |c: char| is_white_space(c)) == u);
    }
    while end > start && peer.get_char(end - 1) == '/'
        invariant
            n == s.len(),
            s == peer@,
            start <= end <= n,
            trim_end_by(u, |c: char| c == '/') == trim_end_by(s.subrange(start as int, end as int), |c: char| c == '/'),
        decreases end,
    {
        proof {
            assert(s.subrange(start as int, end as int).drop_last() =~= s.subrange(start as int, end - 1));
        }
        end = end - 1;
    }
    let trimmed = peer.substring_char(start, end);
    String::from_str(trimmed)
}

/// The number that `bytes` spell little-endian.
pub open spec fn le_value(bytes: Seq<u8>) -> nat
    decreases bytes.len(),
{
    if bytes.len() == 0 {
        0
    } else {
        bytes[0] as nat + 256 * le_value(bytes.drop_first())
    }
}

/// The header written before a message of `payload_len` bytes: the length as a
/// `usize`, little-endian, in as many bytes as a `usize` has.
pub fn frame_header(payload_len: usize) -> (header: Vec<u8>)
    ensures
        header@ == le_bytes(payload_len as nat, (usize::BITS / 8) as nat),
{
    let mut header: Vec<u8> = Vec::new();
    push_le_bytes(&mut header, payload_len as u64, (usize::BITS / 8) as usize);
    proof {
        assert(header@ =~= le_bytes(payload_len as nat, (usize::BITS / 8) as nat));
    }
    header
}

/// The payload length that a reader takes from the four header bytes it reads: their
/// value as a little-endian `u32`.
pub fn frame_length(header: [u8; 4]) -> (len: u32)
    ensures
        len == le_value(header@),
{
    proof {
        let s = header@;
        assert(s.drop_first().drop_first().drop_first().drop_first().len() == 0);
        assert(le_value(s) == s[0] + 256 * (s[1] + 256 * (s[2] + 256 * (s[3] + 256 * 0)))) by {
            assert(s.drop_first()[0] == s[1]);
            assert(s.drop_first().drop_first()[0] == s[2]);
            assert(s.drop_first().drop_first().drop_first()[0] == s[3]);
            reveal_with_fuel(le_value, 5);
        }
    }
    header[0] as u32 + 256 * (header[1] as u32 + 256 * (header[2] as u32 + 256 * header[3] as u32))
}

/// Whether a peer's chain of `remote_len` blocks should replace a local chain of
/// `local_len` blocks: only a strictly longer chain does.
pub fn should_replace_chain(local_len: usize, remote_len: usize) -> (replace: bool)
    ensures
        replace == (remote_len > local_len),
{
    remote_len > local_len
}

} // verus!
