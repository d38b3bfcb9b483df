use toy_blockchain::block::Block;
use toy_blockchain::blockchain::Blockchain;
use toy_blockchain::error::BlockchainError;
use toy_blockchain::mempool::Mempool;
use toy_blockchain::transaction::{OutPoint, Transaction, TxOut};
use toy_blockchain::utxo::UtxoSet;
use toy_blockchain::wallet::preview_wallet_transaction;

fn build_test_blockchain(utxo_set: UtxoSet) -> Blockchain {
    Blockchain {
        chain: Vec::new(),
        utxo_set,
        mempool: Mempool::new(),
        difficulty_prefix: "0000".to_string(),
    }
}

fn out(txid: &str, index: u32) -> OutPoint {
    OutPoint {
        txid: txid.to_string(),
        index,
    }
}

fn pay(value: u64, address: &str) -> TxOut {
    TxOut {
        value,
        address: address.to_string(),
    }
}

fn coinbase(value: u64, address: &str, timestamp: i64) -> Transaction {
    Transaction {
        inputs: vec![],
        outputs: vec![pay(value, address)],
        timestamp,
    }
}

/// A chain with an easy (empty) difficulty prefix and a first block.
fn easy_chain() -> Blockchain {
    let genesis = Block::new(0, vec![], "0".repeat(64), "").unwrap();
    Blockchain {
        chain: vec![genesis],
        utxo_set: UtxoSet::new(),
        mempool: Mempool::new(),
        difficulty_prefix: String::new(),
    }
}

fn next_block(chain: &Blockchain, transactions: Vec<Transaction>) -> Block {
    Block::new(
        chain.chain.len() as u64,
        transactions,
        chain.tip_hash().unwrap(),
        "",
    )
    .unwrap()
}

#[test]
fn select_utxos_for_amount_returns_none_when_insufficient_funds() {
    let mut utxo = UtxoSet::new();
    utxo.insert(
        OutPoint {
            txid: "tx1".to_string(),
            index: 0,
        },
        TxOut {
            value: 10,
            address: "alice".to_string(),
        },
    );

    let blockchain = build_test_blockchain(utxo);
    assert!(blockchain.select_utxos_for_amount("alice", 50).is_none());
}

#[test]
fn select_utxos_for_amount_can_select_multiple_utxos() {
    let mut utxo = UtxoSet::new();
    utxo.insert(
        OutPoint {
            txid: "tx1".to_string(),
            index: 0,
        },
        TxOut {
            value: 20,
            address: "alice".to_string(),
        },
    );
    utxo.insert(
        OutPoint {
            txid: "tx2".to_string(),
            index: 0,
        },
        TxOut {
            value: 15,
            address: "alice".to_string(),
        },
    );

    let blockchain = build_test_blockchain(utxo);
    let selected = blockchain.select_utxos_for_amount("alice", 25).unwrap();
    assert_eq!(selected.len(), 2);
    assert_eq!(selected.iter().map(|(_, out)| out.value).sum::<u64>(), 35);
}

#[test]
fn select_utxos_takes_the_shortest_run_in_out_point_order() {
    let mut utxo = UtxoSet::new();
    utxo.insert(out("b", 0), pay(5, "alice"));
    utxo.insert(out("a", 1), pay(7, "alice"));
    utxo.insert(out("a", 0), pay(1, "alice"));
    utxo.insert(out("c", 0), pay(100, "bob"));
    let blockchain = build_test_blockchain(utxo);
    let picked = blockchain.select_utxos_for_amount("alice", 8).unwrap();
    let keys: Vec<(String, u32)> = picked
        .iter()
        .map(|(o, _)| (o.txid.clone(), o.index))
        .collect();
    assert_eq!(keys, vec![("a".to_string(), 0), ("a".to_string(), 1)]);
    let one = blockchain.select_utxos_for_amount("alice", 0).unwrap();
    assert_eq!(one.len(), 1);
    assert_eq!(one[0].0.txid, "a");
    assert!(blockchain.select_utxos_for_amount("carol", 0).is_none());
}

#[test]
fn select_utxos_gives_none_when_the_total_would_overflow() {
    let mut utxo = UtxoSet::new();
    utxo.insert(out("a", 0), pay(u64::MAX - 1, "alice"));
    utxo.insert(out("b", 0), pay(5, "alice"));
    let blockchain = build_test_blockchain(utxo);
    assert!(blockchain.select_utxos_for_amount("alice", u64::MAX).is_none());
    assert_eq!(
        blockchain
            .select_utxos_for_amount("alice", u64::MAX - 1)
            .unwrap()
            .len(),
        1
    );
}

#[test]
fn empty_blockchain_open_creates_genesis_block() {
    let blockchain = Blockchain::from_blocks(Vec::new()).unwrap();
    assert_eq!(blockchain.chain.len(), 1);
    assert_eq!(blockchain.chain[0].index, 0);
    assert_eq!(blockchain.chain[0].transactions.len(), 0);
    assert!(blockchain.chain[0].hash.starts_with("0000"));
    assert_eq!(blockchain.difficulty_prefix(), "0000");
    assert_eq!(blockchain.utxo_set.len(), 0);
}

#[test]
fn balance_endpoint_returns_sum_for_address() {
    let mut utxo_set = UtxoSet::new();
    utxo_set.insert(
        OutPoint {
            txid: "tx1".to_string(),
            index: 0,
        },
        TxOut {
            value: 40,
            address: "alice".to_string(),
        },
    );
    utxo_set.insert(
        OutPoint {
            txid: "tx2".to_string(),
            index: 1,
        },
        TxOut {
            value: 10,
            address: "alice".to_string(),
        },
    );
    let blockchain = build_test_blockchain(utxo_set);
    assert_eq!(blockchain.get_balance("alice"), 50);
    assert_eq!(blockchain.get_balance("bob"), 0);
}

#[test]
fn wallet_preview_endpoint_returns_selected_utxos_and_change() {
    let mut utxo_set = UtxoSet::new();
    utxo_set.insert(
        OutPoint {
            txid: "tx1".to_string(),
            index: 0,
        },
        TxOut {
            value: 20,
            address: "alice".to_string(),
        },
    );
    utxo_set.insert(
        OutPoint {
            txid: "tx2".to_string(),
            index: 1,
        },
        TxOut {
            value: 15,
            address: "alice".to_string(),
        },
    );
    let blockchain = build_test_blockchain(utxo_set);
    let preview = preview_wallet_transaction(&blockchain, "alice", "bob", 25, Some(5));
    assert!(preview.valid);
    assert_eq!(preview.amount, 25);
    assert_eq!(preview.fee, 5);
    assert_eq!(preview.total_selected, 35);
    assert_eq!(preview.change, 5);
    assert_eq!(preview.outputs.len(), 2);
    assert_eq!(preview.outputs[0].value, 25);
    assert_eq!(preview.outputs[1].value, 5);
}

#[test]
fn wallet_preview_without_funds_is_invalid() {
    let blockchain = build_test_blockchain(UtxoSet::new());
    let preview = preview_wallet_transaction(&blockchain, "alice", "bob", 10, None);
    assert!(!preview.valid);
    assert_eq!(preview.fee, 0);
    assert_eq!(preview.total_selected, 0);
    assert_eq!(preview.change, 0);
    assert!(preview.selected_utxos.is_empty());
    assert_eq!(preview.outputs.len(), 1);
    assert_eq!(preview.outputs[0].address, "bob");
}

#[test]
fn tip_hash_of_an_empty_chain_is_missing() {
    let blockchain = build_test_blockchain(UtxoSet::new());
    assert!(matches!(
        blockchain.tip_hash(),
        Err(BlockchainError::MissingData("chain tip"))
    ));
}

#[test]
fn add_block_appends_and_applies_outputs() {
    let mut chain = easy_chain();
    let block = next_block(&chain, vec![]);
    chain.add_block(block.clone()).unwrap();
    assert_eq!(chain.chain.len(), 2);
    assert_eq!(chain.tip_hash().unwrap(), block.hash);

    let mined = next_block(&chain, vec![coinbase(50, "m", 1), coinbase(50, "m", 2)]);
    assert!(matches!(
        chain.add_block(mined),
        Err(BlockchainError::InvalidTransaction)
    ));
    assert_eq!(chain.chain.len(), 2);

    let paid = next_block(
        &chain,
        vec![
            coinbase(50, "m", 3),
            Transaction {
                inputs: vec![],
                outputs: vec![],
                timestamp: 4,
            },
        ],
    );
    assert!(matches!(
        chain.add_block(paid),
        Err(BlockchainError::InvalidTransaction)
    ));
}

#[test]
fn add_block_reports_linking_errors() {
    let mut chain = easy_chain();
    let mut wrong_previous = next_block(&chain, vec![]);
    wrong_previous.previous_hash = "x".to_string();
    assert!(matches!(
        chain.add_block(wrong_previous),
        Err(BlockchainError::InvalidPreviousHash)
    ));
    let wrong_index = Block::new(5, vec![], chain.tip_hash().unwrap(), "").unwrap();
    assert!(matches!(
        chain.add_block(wrong_index),
        Err(BlockchainError::InvalidBlockHash)
    ));
    chain.difficulty_prefix = "ffffffffffff".to_string();
    let easy = next_block(&chain, vec![]);
    assert!(matches!(
        chain.add_block(easy),
        Err(BlockchainError::PoWNotMet)
    ));
    assert_eq!(chain.chain.len(), 1);
}

#[test]
fn try_add_block_refuses_a_single_transaction_block() {
    let mut chain = easy_chain();
    let mut block = next_block(&chain, vec![]);
    block.transactions.push(coinbase(50, "m", 1));
    assert!(chain.try_add_block(block).is_none());
    assert_eq!(chain.chain.len(), 1);
}

#[test]
fn add_block_keeps_unmined_transactions_in_the_pool() {
    let mut chain = easy_chain();
    let keep = coinbase(7, "k", 1);
    chain.add_to_mempool(keep.clone()).unwrap();
    let block = next_block(&chain, vec![]);
    chain.add_block(block).unwrap();
    assert!(chain.mempool.contains(&keep.id()));
    assert_eq!(chain.mempool.len(), 1);
    assert_eq!(chain.utxo_set.len(), 0);
}

#[test]
fn replace_chain_takes_a_longer_valid_chain_only() {
    let mut local = easy_chain();
    let mut remote = Blockchain {
        chain: local.chain.clone(),
        utxo_set: UtxoSet::new(),
        mempool: Mempool::new(),
        difficulty_prefix: String::new(),
    };
    for _ in 0..2 {
        let b = next_block(&remote, vec![]);
        remote.add_block(b).unwrap();
    }
    assert!(matches!(
        local.replace_chain(local.chain.clone()),
        Err(BlockchainError::ChainReplacementRejected)
    ));
    local.add_to_mempool(coinbase(1, "w", 1)).unwrap();
    local.replace_chain(remote.chain.clone()).unwrap();
    assert_eq!(local.chain.len(), 3);
    assert_eq!(local.mempool.len(), 1);

    let mut forged = remote.chain.clone();
    forged[0].previous_hash = "1".repeat(64);
    forged.push(forged[2].clone());
    let mut fresh = easy_chain();
    assert!(matches!(
        fresh.replace_chain(forged),
        Err(BlockchainError::GenesisMismatch)
    ));
}

#[test]
fn validated_chain_rebuilds_to_the_same_outputs() {
    let mut chain = easy_chain();
    let block = next_block(&chain, vec![coinbase(5, "a", 1), coinbase(6, "b", 2)]);
    assert!(chain.add_block(block).is_err());
    let block = next_block(&chain, vec![]);
    chain.add_block(block).unwrap();
    let validated = chain.validate_chain(&chain.chain).unwrap();
    assert_eq!(validated.len(), chain.utxo_set.len());
    assert!(matches!(
        chain.validate_chain(&[]),
        Err(BlockchainError::MissingData("chain"))
    ));
}

#[test]
fn mining_needs_a_tip_and_a_staged_transaction() {
    let mut empty = build_test_blockchain(UtxoSet::new());
    assert!(matches!(
        empty.try_mine_block_from_mempool("miner".to_string()),
        Some(Err(BlockchainError::MissingData("chain tip")))
    ));
    let mut chain = easy_chain();
    assert!(chain
        .try_mine_block_from_mempool("miner".to_string())
        .is_none());
    assert_eq!(chain.chain.len(), 1);
    chain.add_to_mempool(coinbase(3, "x", 1)).unwrap();
    assert!(matches!(
        chain.try_mine_block_from_mempool("miner".to_string()),
        Some(Err(BlockchainError::InvalidTransaction))
    ));
    assert_eq!(chain.chain.len(), 1);
}

#[test]
fn add_to_mempool_checks_and_deduplicates() {
    let mut chain = easy_chain();
    let tx = coinbase(3, "x", 1);
    let id = chain.add_to_mempool(tx.clone()).unwrap();
    assert_eq!(id, tx.id());
    assert_eq!(chain.add_to_mempool(tx).unwrap(), id);
    assert_eq!(chain.mempool.len(), 1);
    let bad = Transaction {
        inputs: vec![],
        outputs: vec![],
        timestamp: 1,
    };
    assert!(matches!(
        chain.add_to_mempool(bad),
        Err(BlockchainError::InvalidTransaction)
    ));
    assert_eq!(chain.mempool.len(), 1);
}

#[test]
fn utxos_for_address_lists_only_that_address() {
    let mut utxo = UtxoSet::new();
    utxo.insert(out("a", 0), pay(1, "alice"));
    utxo.insert(out("b", 0), pay(2, "bob"));
    utxo.insert(out("a", 0), pay(3, "alice"));
    let blockchain = build_test_blockchain(utxo);
    let found = blockchain.utxos_for_address("alice");
    assert_eq!(found.len(), 1);
    assert_eq!(found[0].1.value, 3);
}

#[test]
fn mining_at_fixed_times_reports_the_same_errors() {
    let mut empty = build_test_blockchain(UtxoSet::new());
    assert!(matches!(
        empty.mine_block_from_mempool_at("miner".to_string(), 10, 11),
        Err(BlockchainError::MissingData("chain tip"))
    ));
    assert!(empty.chain.is_empty());
    let mut chain = easy_chain();
    chain.add_to_mempool(coinbase(3, "x", 1)).unwrap();
    assert!(matches!(
        chain.mine_block_from_mempool_at("miner".to_string(), 10, 11),
        Err(BlockchainError::InvalidTransaction)
    ));
    assert_eq!(chain.chain.len(), 1);
    assert_eq!(chain.mempool.len(), 1);
    assert_eq!(chain.utxo_set.len(), 0);
}

#[test]
fn utxo_listing_replaces_in_place_and_removes_in_order() {
    let mut utxo = UtxoSet::new();
    utxo.insert(out("a", 0), TxOut { value: 1, address: "x".to_string() });
    utxo.insert(out("b", 0), TxOut { value: 2, address: "y".to_string() });
    utxo.insert(out("a", 0), TxOut { value: 3, address: "z".to_string() });
    let listed: Vec<(String, u64)> = utxo
        .entries()
        .iter()
        .map(|(o, t)| (o.txid.clone(), t.value))
        .collect();
    assert_eq!(listed, vec![("a".to_string(), 3), ("b".to_string(), 2)]);
    utxo.remove(&out("a", 0));
    let listed: Vec<String> = utxo.entries().iter().map(|(o, _)| o.txid.clone()).collect();
    assert_eq!(listed, vec!["b".to_string()]);
    utxo.remove(&out("zz", 9));
    assert_eq!(utxo.len(), 1);
}

#[test]
fn a_fresh_node_stays_valid_through_its_operations() {
    let mut bc = Blockchain::from_blocks(vec![]).unwrap();
    assert!(bc.add_to_mempool(coinbase(3, "x", 1)).is_ok());
    assert!(matches!(
        bc.try_mine_block_from_mempool("miner".to_string()),
        Some(Err(BlockchainError::InvalidTransaction))
    ));
    let prefix = bc.difficulty_prefix().to_string();
    let block = Block::new(1, vec![], bc.tip_hash().unwrap(), &prefix).unwrap();
    bc.add_block(block).unwrap();
    let stale = Block::new(1, vec![], bc.tip_hash().unwrap(), &prefix).unwrap();
    assert!(bc.add_block(stale).is_err());
    let shorter = bc.chain[..1].to_vec();
    assert!(matches!(
        bc.try_replace_chain(shorter),
        Some(Err(BlockchainError::ChainReplacementRejected))
    ));
    let validated = bc.validate_chain(&bc.chain).unwrap();
    assert_eq!(validated.len(), bc.utxo_set.len());
    for (out_point, output) in validated.entries() {
        assert_eq!(bc.utxo_set.get(out_point).unwrap().value, output.value);
    }
    assert_eq!(bc.chain.len(), 2);
}
