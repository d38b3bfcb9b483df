use toy_blockchain::mempool::Mempool;
use toy_blockchain::transaction::{Transaction, TxOut};

fn coinbase(value: u64, address: &str, timestamp: i64) -> Transaction {
    Transaction {
        inputs: vec![],
        outputs: vec![TxOut {
            value,
            address: address.to_string(),
        }],
        timestamp,
    }
}

#[test]
fn mempool_add_contains_and_remove_work() {
    let mut mempool = Mempool::new();
    let tx = Transaction {
        inputs: vec![],
        outputs: vec![TxOut {
            value: 10,
            address: "miner".to_string(),
        }],
        timestamp: 1,
    };
    let txid = mempool.add_transaction(tx.clone());
    assert!(mempool.contains(&txid));
    assert_eq!(mempool.all().len(), 1);
    mempool.remove_transactions(&[txid.clone()]);
    assert!(!mempool.contains(&txid));
    assert!(mempool.all().is_empty());
}

#[test]
fn mempool_keeps_one_entry_per_id() {
    let mut mempool = Mempool::new();
    let a = mempool.add_transaction(coinbase(10, "miner", 1));
    let b = mempool.add_transaction(coinbase(10, "miner", 1));
    assert_eq!(a, b);
    assert_eq!(mempool.len(), 1);
    let c = mempool.add_transaction(coinbase(11, "miner", 1));
    assert_ne!(a, c);
    assert_eq!(mempool.len(), 2);
}

#[test]
fn mempool_returns_transactions_in_arrival_order() {
    let mut mempool = Mempool::new();
    let ids: Vec<String> = (0..5)
        .map(|i| mempool.add_transaction(coinbase(10 + i, "miner", 1)))
        .collect();
    let first_three = mempool.get_transactions_for_block(3);
    assert_eq!(first_three.len(), 3);
    for (tx, id) in first_three.iter().zip(ids.iter()) {
        assert_eq!(&tx.id(), id);
    }
    assert_eq!(mempool.get_transactions_for_block(100).len(), 5);
    assert_eq!(mempool.get_transactions_for_block(0).len(), 0);
}

#[test]
fn mempool_remove_keeps_the_others_in_order() {
    let mut mempool = Mempool::new();
    let ids: Vec<String> = (0..4)
        .map(|i| mempool.add_transaction(coinbase(20 + i, "miner", 2)))
        .collect();
    mempool.remove_transactions(&[ids[1].clone(), "not-an-id".to_string()]);
    let left: Vec<String> = mempool.all().iter().map(|t| t.id()).collect();
    assert_eq!(left, vec![ids[0].clone(), ids[2].clone(), ids[3].clone()]);
    assert!(mempool.get(&ids[1]).is_none());
    assert_eq!(mempool.get(&ids[2]).unwrap().outputs[0].value, 22);
}
