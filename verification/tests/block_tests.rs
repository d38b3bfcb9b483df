use std::hash::Hasher;

use merkle_light::hash::Algorithm;
use merkle_light::merkle::MerkleTree;
use sha2::Digest;
use toy_blockchain::block::Block;
use toy_blockchain::error::BlockchainError;
use toy_blockchain::merkle::{calculate_merkle_root, merkle_root_hex, Sha256Algorithm};
use toy_blockchain::transaction::{Transaction, TxOut};

#[derive(Clone, Default)]
struct Sha256Nodes(sha2::Sha256);

impl Hasher for Sha256Nodes {
    fn finish(&self) -> u64 {
        0
    }

    fn write(&mut self, bytes: &[u8]) {
        self.0.update(bytes);
    }
}

impl Algorithm<[u8; 32]> for Sha256Nodes {
    fn hash(&mut self) -> [u8; 32] {
        self.0.clone().finalize().into()
    }

    fn reset(&mut self) {
        self.0 = sha2::Sha256::new();
    }

    fn leaf(&mut self, data: [u8; 32]) -> [u8; 32] {
        data
    }

    fn node(&mut self, left: [u8; 32], right: [u8; 32]) -> [u8; 32] {
        let mut hasher = sha2::Sha256::new();
        hasher.update(left);
        hasher.update(right);
        hasher.finalize().into()
    }
}

fn coinbase(value: u64, address: &str, timestamp: i64) -> Transaction {
    Transaction {
        inputs: vec![],
        outputs: vec![TxOut {
            value,
            address: address.to_string(),
        }],
        timestamp,
    }
}

#[test]
fn merkle_root_for_empty_transactions_is_zero_hash() {
    let root = Block::merkle_root_for_transactions(&[]).unwrap();
    assert_eq!(root, hex::encode([0u8; 32]));
}

#[test]
fn merkle_root_agrees_with_merkle_light() {
    for n in [2usize, 3, 4, 5, 7, 8, 9] {
        let leaves: Vec<[u8; 32]> = (0..n)
            .map(|i| sha2::Sha256::digest([i as u8]).into())
            .collect();
        let tree: MerkleTree<[u8; 32], Sha256Nodes> = MerkleTree::from_iter(leaves.clone());
        assert_eq!(calculate_merkle_root(leaves), hex::encode(tree.root()));
    }
}

#[test]
fn merkle_root_of_two_is_the_hash_of_both() {
    let a = [1u8; 32];
    let b = [2u8; 32];
    let mut both = a.to_vec();
    both.extend_from_slice(&b);
    assert_eq!(
        calculate_merkle_root(vec![a, b]),
        hex::encode(sha2::Sha256::digest(&both))
    );
}

#[test]
fn merkle_root_of_three_repeats_the_last_leaf() {
    let leaves: Vec<[u8; 32]> = vec![[1u8; 32], [2u8; 32], [3u8; 32]];
    let node = |l: &[u8; 32], r: &[u8; 32]| -> [u8; 32] {
        let mut both = l.to_vec();
        both.extend_from_slice(r);
        sha2::Sha256::digest(&both).into()
    };
    let left = node(&leaves[0], &leaves[1]);
    let right = node(&leaves[2], &leaves[2]);
    assert_eq!(calculate_merkle_root(leaves), hex::encode(node(&left, &right)));
}

#[test]
fn sha256_algorithm_hashes_what_was_written() {
    let mut a = Sha256Algorithm::default();
    a.write(b"ab");
    a.write(b"c");
    assert_eq!(a.hash(), <[u8; 32]>::from(sha2::Sha256::digest(b"abc")));
    a.reset();
    assert_eq!(a.hash(), <[u8; 32]>::from(sha2::Sha256::digest(b"")));
    assert_eq!(a.leaf([7u8; 32]), [7u8; 32]);
    assert_eq!(a.finish(), 0);
}

#[test]
fn merkle_root_hex_is_lowercase_hex() {
    let mut root = [0u8; 32];
    root[0] = 0xab;
    root[31] = 0x0f;
    let text = merkle_root_hex(&root);
    assert_eq!(text, hex::encode(root));
    assert!(text.starts_with("ab00"));
    assert!(text.ends_with("0f"));
}

#[test]
fn merkle_root_for_transactions_uses_their_digests() {
    let txs = vec![coinbase(1, "a", 1), coinbase(2, "b", 2), coinbase(3, "c", 3)];
    let leaves: Vec<[u8; 32]> = txs
        .iter()
        .map(|t| hex::decode(t.id()).unwrap().try_into().unwrap())
        .collect();
    assert_eq!(
        Block::merkle_root_for_transactions(&txs).unwrap(),
        calculate_merkle_root(leaves)
    );
}

#[test]
fn calculate_hash_hashes_the_header_text() {
    let block = Block {
        index: 3,
        timestamp: -5,
        transactions: vec![],
        previous_hash: "prev".to_string(),
        merkle_root: "root".to_string(),
        nonce: 42,
        hash: String::new(),
    };
    let expected = hex::encode(sha2::Sha256::digest("3-5prevroot42".as_bytes()));
    assert_eq!(block.calculate_hash(), expected);
}

#[test]
fn new_block_mines_the_first_winning_nonce() {
    let block = Block::new(1, vec![], "p".repeat(64), "00").unwrap();
    assert!(block.hash.starts_with("00"));
    assert_eq!(block.hash, block.calculate_hash());
    let mut probe = block.clone();
    for n in 0..block.nonce {
        probe.nonce = n;
        assert!(!probe.calculate_hash().starts_with("00"));
    }
    assert!(block.validate_pow("00").is_ok());
    assert!(block.validate_merkle_root().is_ok());
    assert_eq!(block.merkle_root, hex::encode([0u8; 32]));
}

#[test]
fn mine_block_advances_from_the_current_nonce() {
    let mut block = Block::new(2, vec![], "q".repeat(64), "").unwrap();
    assert_eq!(block.nonce, 0);
    block.nonce = 5;
    block.mine_block("");
    assert_eq!(block.nonce, 5);
    assert_eq!(block.hash, block.calculate_hash());
}

#[test]
fn validate_pow_reports_each_error() {
    let mut block = Block::new(1, vec![], "p".repeat(64), "0").unwrap();
    assert!(matches!(
        block.validate_pow("0000000000"),
        Err(BlockchainError::PoWNotMet)
    ));
    block.nonce += 1;
    assert!(matches!(
        block.validate_pow("0"),
        Err(BlockchainError::InvalidBlockHash)
    ));
}

#[test]
fn validate_merkle_root_detects_tampering() {
    let mut block = Block::new(
        1,
        vec![coinbase(50, "m", 1), coinbase(50, "n", 2)],
        "p".repeat(64),
        "",
    )
    .unwrap();
    assert!(block.validate_merkle_root().is_ok());
    block.transactions[1].outputs[0].value = 51;
    assert!(matches!(
        block.validate_merkle_root(),
        Err(BlockchainError::InvalidMerkleRoot)
    ));
}

#[test]
fn mine_at_uses_the_given_timestamp_and_is_repeatable() {
    let a = Block::mine_at(3, 1234, vec![], "p".repeat(64), "0").unwrap();
    assert_eq!(a.timestamp, 1234);
    assert_eq!(a.index, 3);
    assert!(a.hash.starts_with('0'));
    assert_eq!(a.hash, a.calculate_hash());
    let mut probe = a.clone();
    for n in 0..a.nonce {
        probe.nonce = n;
        assert!(!probe.calculate_hash().starts_with('0'));
    }
    let b = Block::mine_at(3, 1234, vec![], "p".repeat(64), "0").unwrap();
    assert_eq!((a.nonce, a.hash), (b.nonce, b.hash));
    let c = Block::mine_at(3, 1234, vec![], "p".repeat(64), "").unwrap();
    assert_eq!(c.nonce, 0);
}
