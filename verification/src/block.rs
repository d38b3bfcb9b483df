use vstd::prelude::*;
use vstd::utf8::encode_utf8;

use crate::crypto::{now_timestamp, sha256, sha256_spec, to_array32};
use crate::encoding::{
    bytes_start_with, decimal_digits, hex_decode, hex_encode, hex_encode_spec, lemma_hex_roundtrip,
    push_all, push_decimal, push_signed_decimal, signed_decimal,
};
use crate::error::BlockchainError;
use crate::merkle::{calculate_merkle_root, digests_view, merkle_root_text};
use crate::transaction::{tx_digest, transactions_view, Transaction, TransactionView};

verus! {

#[derive(Debug)]
pub struct Block {
    pub index: u64,
    pub timestamp: i64,
    pub transactions: Vec<Transaction>,
    pub previous_hash: String,
    pub merkle_root: String,
    pub nonce: u64,
    pub hash: String,
}

#[verifier::ext_equal]
pub struct BlockView {
    pub index: u64,
    pub timestamp: i64,
    pub transactions: Seq<TransactionView>,
    pub previous_hash: Seq<char>,
    pub merkle_root: Seq<char>,
    pub nonce: u64,
    pub hash: Seq<char>,
}

impl View for Block {
    type V = BlockView;

    open spec fn view(&self) -> BlockView {
        BlockView {
            index: self.index,
            timestamp: self.timestamp,
            transactions: transactions_view(self.transactions@),
            previous_hash: self.previous_hash@,
            merkle_root: self.merkle_root@,
            nonce: self.nonce,
            hash: self.hash@,
        }
    }
}

impl Clone for Block {
    fn clone(&self) -> (res: Self)
        ensures
            res@ == self@,
    {
        let mut transactions: Vec<Transaction> = Vec::new();
        let mut i: usize = 0;
        while i < self.transactions.len()
            invariant
                i <= self.transactions@.len(),
                transactions@.len() == i,
                forall|j: int| 0 <= j < i ==> #[trigger] transactions@[j]@ == self.transactions@[j]@,
            decreases self.transactions@.len() - i,
        {
            transactions.push(self.transactions[i].clone());
            i = i + 1;
        }
        let res = Block {
            index: self.index,
            timestamp: self.timestamp,
            transactions,
            previous_hash: self.previous_hash.clone(),
            merkle_root: self.merkle_root.clone(),
            nonce: self.nonce,
            hash: self.hash.clone(),
        };
        assert(res@.transactions =~= self@.transactions);
        res
    }
}

/// The text that a block's hash is taken of, as bytes: the decimal numerals of the
/// index and timestamp, the previous hash, the Merkle root and the decimal numeral of
/// the nonce, written one after the other.
pub open spec fn header_bytes(
    index: u64,
    timestamp: i64,
    previous_hash: Seq<char>,
    merkle_root: Seq<char>,
    nonce: u64,
) -> Seq<u8> {
    decimal_digits(index as nat) + signed_decimal(timestamp as int) + encode_utf8(previous_hash)
        + encode_utf8(merkle_root) + decimal_digits(nonce as nat)
}

/// The hex text of the SHA-256 digest of the header text.
pub open spec fn header_hash(
    index: u64,
    timestamp: i64,
    previous_hash: Seq<char>,
    merkle_root: Seq<char>,
    nonce: u64,
) -> Seq<char> {
    hex_encode_spec(sha256_spec(header_bytes(index, timestamp, previous_hash, merkle_root, nonce)))
}

/// The hash a block has with nonce `nonce`.
pub open spec fn hash_with_nonce(b: BlockView, nonce: u64) -> Seq<char> {
    header_hash(b.index, b.timestamp, b.previous_hash, b.merkle_root, nonce)
}

/// Whether a hash text begins with the difficulty prefix (compared as UTF-8 bytes).
pub open spec fn meets_difficulty(hash: Seq<char>, prefix: Seq<char>) -> bool {
    encode_utf8(prefix).is_prefix_of(encode_utf8(hash))
}

/// Whether nonce `nonce` gives the block a hash that meets the difficulty prefix.
pub open spec fn nonce_wins(b: BlockView, prefix: Seq<char>, nonce: u64) -> bool {
    meets_difficulty(hash_with_nonce(b, nonce), prefix)
}

/// The digests of a list of transactions, in order.
pub open spec fn tx_digests(txs: Seq<TransactionView>) -> Seq<Seq<u8>> {
    txs.map_values(|t: TransactionView| tx_digest(t))
}

/// The hex text of the Merkle root over the transactions' digests.
pub open spec fn transactions_merkle_root(txs: Seq<TransactionView>) -> Seq<char> {
    merkle_root_text(tx_digests(txs))
}

/// The outcome of checking a block's proof of work: its stored hash must be its hash,
/// and that hash must meet the difficulty prefix.
pub open spec fn pow_check(b: BlockView, prefix: Seq<char>) -> Result<(), BlockchainError> {
    if b.hash != hash_with_nonce(b, b.nonce) {
        Err(BlockchainError::InvalidBlockHash)
    } else if !meets_difficulty(b.hash, prefix) {
        Err(BlockchainError::PoWNotMet)
    } else {
        Ok(())
    }
}

/// The outcome of checking a block's Merkle root against its transactions.
pub open spec fn merkle_check(b: BlockView) -> Result<(), BlockchainError> {
    if transactions_merkle_root(b.transactions) != b.merkle_root {
        Err(BlockchainError::InvalidMerkleRoot)
    } else {
        Ok(())
    }
}

/// The block with these header fields and transactions before mining: the Merkle root
/// of the transactions, nonce 0 and no hash.
pub open spec fn unmined_block(
    index: u64,
    timestamp: i64,
    transactions: Seq<TransactionView>,
    previous_hash: Seq<char>,
) -> BlockView {
    BlockView {
        index,
        timestamp,
        transactions,
        previous_hash,
        merkle_root: transactions_merkle_root(transactions),
        nonce: 0,
        hash: Seq::empty(),
    }
}

/// The block with nonce `nonce` and the hash it gives.
pub open spec fn with_nonce(b: BlockView, nonce: u64) -> BlockView {
    BlockView { nonce, hash: hash_with_nonce(b, nonce), ..b }
}

/// Whether no nonce gives a header hash that meets the difficulty prefix.
pub open spec fn no_winning_nonce(
    index: u64,
    timestamp: i64,
    previous_hash: Seq<char>,
    merkle_root: Seq<char>,
    prefix: Seq<char>,
) -> bool {
    forall|n: u64|
        !meets_difficulty(#[trigger] header_hash(index, timestamp, previous_hash, merkle_root, n), prefix)
}

/// Whether the first nonce from `start` on that wins is `found`.
pub open spec fn first_winning_nonce(b: BlockView, prefix: Seq<char>, start: u64, found: u64) -> bool {
    &&& start <= found
    &&& nonce_wins(b, prefix, found)
    &&& forall|m: u64| start <= m < found ==> !nonce_wins(b, prefix, m)
}

impl Block {
    /// Mines a block: reads the clock for its timestamp and mines as `mine_at` does
    /// at that timestamp. A single transaction is not accepted: its Merkle tree would
    /// have one leaf.
    pub fn new(
        index: u64,
        transactions: Vec<Transaction>,
        previous_hash: String,
        difficulty_prefix: &str,
    ) -> (res: Result<Block, BlockchainError>)
        requires
            transactions@.len() != 1,
        ensures
            match res {
                Ok(b) => {
                    &&& b@.index == index
                    &&& b@.transactions == transactions_view(transactions@)
                    &&& b@.previous_hash == previous_hash@
                    &&& b@.merkle_root == transactions_merkle_root(b@.transactions)
                    &&& first_winning_nonce(b@, difficulty_prefix@, 0, b.nonce)
                    &&& b@.hash == hash_with_nonce(b@, b.nonce)
                },
                Err(e) => {
                    &&& e == BlockchainError::PoWNotMet
                    &&& exists|timestamp: i64|
                        no_winning_nonce(
                            index,
                            timestamp,
                            previous_hash@,
                            transactions_merkle_root(transactions_view(transactions@)),
                            difficulty_prefix@,
                        )
                },
            },
    {
        let timestamp = now_timestamp();
        let ghost txs = transactions_view(transactions@);
        let ghost prev = previous_hash@;
        let res = Self::mine_at(index, timestamp, transactions, previous_hash, difficulty_prefix);
        proof {
            if res is Ok {
                let b = res->Ok_0;
                let u = unmined_block(index, timestamp, txs, prev);
                assert forall|m: u64| #[trigger] nonce_wins(b@, difficulty_prefix@, m) == nonce_wins(u, difficulty_prefix@, m) by {
                    assert(hash_with_nonce(b@, m) == hash_with_nonce(u, m));
                }
            }
        }
        res
    }

    /// Mines a block with timestamp `timestamp`: computes the Merkle root of the
    /// transactions and searches the nonces from 0 up for the first whose hash meets
    /// the difficulty prefix. Succeeds exactly when some nonce does; otherwise gives
    /// `PoWNotMet`. A single transaction is not accepted: its Merkle tree would have
    /// one leaf.
    pub fn mine_at(
        index: u64,
        timestamp: i64,
        transactions: Vec<Transaction>,
        previous_hash: String,
        difficulty_prefix: &str,
    ) -> (res: Result<Block, BlockchainError>)
        requires
            transactions@.len() != 1,
        ensures
            match res {
                Ok(b) => {
                    &&& b@ == with_nonce(
                        unmined_block(index, timestamp, transactions_view(transactions@), previous_hash@),
                        b.nonce,
                    )
                    &&& first_winning_nonce(
                        unmined_block(index, timestamp, transactions_view(transactions@), previous_hash@),
                        difficulty_prefix@,
                        0,
                        b.nonce,
                    )
                },
                Err(e) => {
                    &&& e == BlockchainError::PoWNotMet
                    &&& no_winning_nonce(
                        index,
                        timestamp,
                        previous_hash@,
                        transactions_merkle_root(transactions_view(transactions@)),
                        difficulty_prefix@,
                    )
                },
            },
    {
        let ghost txs = transactions_view(transactions@);
        let ghost prev = previous_hash@;
        let merkle_root = match Self::merkle_root_for_transactions(transactions.as_slice()) {
            Ok(root) => root,
            Err(e) => return Err(e),
        };
        let mut block = Block {
            index,
            timestamp,
            transactions,
            previous_hash,
            merkle_root,
            nonce: 0,
            hash: String::new(),
        };
        match block.search_nonce(difficulty_prefix) {
            Some(n) => {
                let ghost searched = block@;
                block.nonce = n;
                proof {
                    assert(hash_with_nonce(block@, n) == hash_with_nonce(searched, n));
                    assert(nonce_wins(block@, difficulty_prefix@, n));
                }
                block.mine_block(difficulty_prefix);
                proof {
                    if block.nonce != n {
                        assert(!nonce_wins(block@, difficulty_prefix@, n));
                    }
                    assert(block.nonce == n);
                    assert(searched.nonce == 0);
                    assert forall|m: u64| 0 <= m < block.nonce implies !nonce_wins(
                        block@,
                        difficulty_prefix@,
                        m,
                    ) by {
                        assert(hash_with_nonce(block@, m) == hash_with_nonce(searched, m));
                        assert(!nonce_wins(searched, difficulty_prefix@, m));
                    }
                    let u = unmined_block(index, timestamp, searched.transactions, searched.previous_hash);
                    assert(searched.transactions == txs);
                    assert(searched.previous_hash == prev);
                    assert(block@.merkle_root == u.merkle_root);
                    assert(hash_with_nonce(block@, block.nonce) == hash_with_nonce(u, block.nonce));
                    assert(block@ =~= with_nonce(u, block.nonce));
                    assert forall|m: u64| 0 <= m < block.nonce implies !nonce_wins(u, difficulty_prefix@, m) by {
                        assert(hash_with_nonce(block@, m) == hash_with_nonce(u, m));
                    }
                    assert(hash_with_nonce(block@, block.nonce) == hash_with_nonce(u, block.nonce));
                }
                Ok(block)
            },
            None => {
                proof {
                    assert forall|n: u64|
                        !meets_difficulty(
                            #[trigger] header_hash(
                                index,
                                timestamp,
                                block@.previous_hash,
                                block@.merkle_root,
                                n,
                            ),
                            difficulty_prefix@,
                        ) by {
                        assert(!nonce_wins(block@, difficulty_prefix@, n));
                    }
                    assert(block@.previous_hash == prev);
                    assert(block@.merkle_root == transactions_merkle_root(txs));
                    assert(no_winning_nonce(index, timestamp, prev, transactions_merkle_root(txs), difficulty_prefix@));
                }
                Err(BlockchainError::PoWNotMet)
            },
        }
    }

    /// The hex text of the Merkle root of the transactions' digests, each digest read
    /// back from the hex text of its id; thirty-two zero bytes in hex for no
    /// transactions. A single transaction is not accepted.
    pub fn merkle_root_for_transactions(transactions: &[Transaction]) -> (res: Result<
        String,
        BlockchainError,
    >)
        requires
            transactions@.len() != 1,
        ensures
            res matches Ok(root) && root@ == transactions_merkle_root(
                transactions_view(transactions@),
            ),
    {
        let ghost txs = transactions_view(transactions@);
        let mut hashes: Vec<[u8; 32]> = Vec::new();
        let mut i: usize = 0;
        while i < transactions.len()
            invariant
                txs == transactions_view(transactions@),
                i <= transactions@.len(),
                hashes@.len() == i,
                forall|j: int| 0 <= j < i ==> (#[trigger] hashes@[j])@ == tx_digest(txs[j]),
            decreases transactions@.len() - i,
        {
            let id = transactions[i].id();
            proof {
                lemma_hex_roundtrip(tx_digest(txs[i as int]));
            }
            let bytes = match hex_decode(id.as_str()) {
                Some(b) => b,
                None => return Err(BlockchainError::SerializationError(String::from_str("invalid txid"))),
            };
            if bytes.len() != 32 {
                return Err(BlockchainError::SerializationError(String::from_str("invalid txid length")));
            }
            hashes.push(to_array32(bytes.as_slice()));
            i = i + 1;
        }
        proof {
            assert(digests_view(hashes@) =~= tx_digests(txs));
        }
        Ok(calculate_merkle_root(hashes))
    }

    /// The block's hash for its current nonce.
    pub fn calculate_hash(&self) -> (hash: String)
        ensures
            hash@ == hash_with_nonce(self@, self.nonce),
    {
        let mut data: Vec<u8> = Vec::new();
        push_decimal(&mut data, self.index);
        push_signed_decimal(&mut data, self.timestamp);
        push_all(&mut data, self.previous_hash.as_str().as_bytes());
        push_all(&mut data, self.merkle_root.as_str().as_bytes());
        push_decimal(&mut data, self.nonce);
        proof {
            assert(data@ =~= header_bytes(
                self.index,
                self.timestamp,
                self.previous_hash@,
                self.merkle_root@,
                self.nonce,
            ));
        }
        let digest = sha256(data.as_slice());
        hex_encode(digest.as_slice())
    }

    /// The first nonce from the current one up that wins, if any.
    fn search_nonce(&self, difficulty_prefix: &str) -> (found: Option<u64>)
        ensures
            match found {
                Some(n) => first_winning_nonce(self@, difficulty_prefix@, self.nonce, n),
                None => forall|m: u64| self.nonce <= m ==> !nonce_wins(self@, difficulty_prefix@, m),
            },
    {
        let mut probe = Block {
            index: self.index,
            timestamp: self.timestamp,
            transactions: Vec::new(),
            previous_hash: self.previous_hash.clone(),
            merkle_root: self.merkle_root.clone(),
            nonce: self.nonce,
            hash: String::new(),
        };
        loop
            invariant
                probe.index == self.index,
                probe.timestamp == self.timestamp,
                probe@.previous_hash == self@.previous_hash,
                probe@.merkle_root == self@.merkle_root,
                self.nonce <= probe.nonce,
                forall|m: u64| self.nonce <= m < probe.nonce ==> !nonce_wins(self@, difficulty_prefix@, m),
            decreases u64::MAX - probe.nonce,
        {
            let hash = probe.calculate_hash();
            if bytes_start_with(hash.as_str().as_bytes(), difficulty_prefix.as_bytes()) {
                return Some(probe.nonce);
            }
            if probe.nonce == u64::MAX {
                return None;
            }
            probe.nonce = probe.nonce + 1;
        }
    }

    /// Advances the nonce to the first one from the current value up whose hash meets
    /// the difficulty prefix, and stores that hash. Such a nonce must exist: the
    /// search would otherwise run past the largest nonce.
    pub fn mine_block(&mut self, difficulty_prefix: &str)
        requires
            exists|n: u64| old(self).nonce <= n && nonce_wins(old(self)@, difficulty_prefix@, n),
        ensures
            first_winning_nonce(old(self)@, difficulty_prefix@, old(self).nonce, final(self).nonce),
            final(self)@ == (BlockView {
                nonce: final(self).nonce,
                hash: hash_with_nonce(old(self)@, final(self).nonce),
                ..old(self)@
            }),
    {
        let ghost start = self@;
        loop
            invariant_except_break
                self@ == (BlockView { nonce: self.nonce, ..start }),
                start.nonce <= self.nonce,
                forall|m: u64| start.nonce <= m < self.nonce ==> !nonce_wins(start, difficulty_prefix@, m),
                exists|n: u64| self.nonce <= n && nonce_wins(start, difficulty_prefix@, n),
            ensures
                first_winning_nonce(start, difficulty_prefix@, start.nonce, self.nonce),
                self@ == (BlockView {
                    nonce: self.nonce,
                    hash: hash_with_nonce(start, self.nonce),
                    ..start
                }),
            decreases u64::MAX - self.nonce,
        {
            let hash = self.calculate_hash();
            if bytes_start_with(hash.as_str().as_bytes(), difficulty_prefix.as_bytes()) {
                self.hash = hash;
                break;
            }
            proof {
                let n = choose|n: u64| self.nonce <= n && nonce_wins(start, difficulty_prefix@, n);
                assert(n != self.nonce);
            }
            self.nonce = self.nonce + 1;
        }
    }

    /// Checks that the stored hash is the block's hash and meets the difficulty prefix.
    pub fn validate_pow(&self, difficulty_prefix: &str) -> (res: Result<(), BlockchainError>)
        ensures
            res == pow_check(self@, difficulty_prefix@),
    {
        let expected_hash = self.calculate_hash();
        if self.hash != expected_hash {
            return Err(BlockchainError::InvalidBlockHash);
        }
        if !bytes_start_with(self.hash.as_str().as_bytes(), difficulty_prefix.as_bytes()) {
            return Err(BlockchainError::PoWNotMet);
        }
        Ok(())
    }

    /// Checks the stored Merkle root against the transactions. A block with a single
    /// transaction is not accepted.
    pub fn validate_merkle_root(&self) -> (res: Result<(), BlockchainError>)
        requires
            self@.transactions.len() != 1,
        ensures
            res == merkle_check(self@),
    {
        let expected = match Self::merkle_root_for_transactions(self.transactions.as_slice()) {
            Ok(root) => root,
            Err(e) => return Err(e),
        };
        if expected != self.merkle_root {
            return Err(BlockchainError::InvalidMerkleRoot);
        }
        Ok(())
    }
}

} // verus!
