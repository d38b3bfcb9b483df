use toy_blockchain::error::BlockchainError;
use toy_blockchain::network::{
    frame_header, frame_length, normalize_peer, respond, should_replace_chain, Message, Outcome,
};

#[test]
fn should_replace_chain_prefers_longer_remote_chain() {
    assert!(should_replace_chain(3, 5));
}

#[test]
fn should_replace_chain_rejects_shorter_remote_chain() {
    assert!(!should_replace_chain(5, 3));
}

#[test]
fn should_replace_chain_rejects_equal_length_chain() {
    assert!(!should_replace_chain(4, 4));
}

#[test]
fn normalize_peer_trims_space_and_trailing_slashes() {
    assert_eq!(normalize_peer("  127.0.0.1:9000/ \n"), "127.0.0.1:9000");
    assert_eq!(normalize_peer("host:1//"), "host:1");
    assert_eq!(normalize_peer("host:1 /"), "host:1 ");
    assert_eq!(normalize_peer("\u{3000}peer\u{a0}"), "peer");
    assert_eq!(normalize_peer("   "), "");
    assert_eq!(normalize_peer("///"), "");
    assert_eq!(normalize_peer("a/b"), "a/b");
}

#[test]
fn frame_header_is_the_length_as_little_endian_usize() {
    assert_eq!(frame_header(300), 300usize.to_le_bytes().to_vec());
    assert_eq!(frame_header(0), vec![0u8; std::mem::size_of::<usize>()]);
    let header = frame_header(0x0102_0304);
    assert_eq!(&header[..4], &[4, 3, 2, 1]);
}

#[test]
fn frame_length_reads_four_little_endian_bytes() {
    assert_eq!(frame_length([44, 1, 0, 0]), 300);
    assert_eq!(frame_length([4, 3, 2, 1]), 0x0102_0304);
    assert_eq!(frame_length([255, 255, 255, 255]), u32::MAX);
    assert_eq!(frame_length(frame_header(77)[..4].try_into().unwrap()), 77);
}

fn one_block_chain() -> toy_blockchain::blockchain::Blockchain {
    let genesis = toy_blockchain::block::Block::new(0, vec![], "0".repeat(64), "").unwrap();
    toy_blockchain::blockchain::Blockchain {
        chain: vec![genesis],
        utxo_set: toy_blockchain::utxo::UtxoSet::new(),
        mempool: toy_blockchain::mempool::Mempool::new(),
        difficulty_prefix: String::new(),
    }
}

fn reward(value: u64) -> toy_blockchain::transaction::Transaction {
    toy_blockchain::transaction::Transaction {
        inputs: vec![],
        outputs: vec![toy_blockchain::transaction::TxOut {
            value,
            address: "miner".to_string(),
        }],
        timestamp: 1,
    }
}

#[test]
fn respond_answers_a_chain_request_with_the_chain() {
    let mut chain = one_block_chain();
    match respond(&mut chain, Message::GetChain) {
        Outcome::Replied(Message::Chain(blocks)) => {
            assert_eq!(blocks.len(), 1);
            assert_eq!(blocks[0].hash, chain.chain[0].hash);
        }
        other => panic!("unexpected outcome {:?}", other),
    }
}

#[test]
fn respond_dispatches_each_message_kind() {
    let mut chain = one_block_chain();
    let tx = reward(5);
    match respond(&mut chain, Message::NewTransaction(tx.clone())) {
        Outcome::TransactionPooled(Ok(id)) => assert_eq!(id, tx.id()),
        other => panic!("unexpected outcome {:?}", other),
    }
    assert_eq!(chain.mempool.len(), 1);

    let tip = chain.tip_hash().unwrap();
    let single = toy_blockchain::block::Block::mine_at(1, 2, vec![reward(1), reward(2)], tip.clone(), "").unwrap();
    let mut one_tx = single.clone();
    one_tx.transactions.truncate(1);
    assert!(matches!(respond(&mut chain, Message::NewBlock(one_tx)), Outcome::SingleLeaf));
    assert_eq!(chain.chain.len(), 1);

    match respond(&mut chain, Message::NewBlock(single)) {
        Outcome::BlockAdded(Err(BlockchainError::InvalidTransaction)) => {}
        other => panic!("unexpected outcome {:?}", other),
    }
    let empty = toy_blockchain::block::Block::mine_at(1, 2, vec![], tip, "").unwrap();
    assert!(matches!(respond(&mut chain, Message::NewBlock(empty)), Outcome::BlockAdded(Ok(()))));
    assert_eq!(chain.chain.len(), 2);

    let shorter = vec![chain.chain[0].clone()];
    assert!(matches!(
        respond(&mut chain, Message::Chain(shorter)),
        Outcome::ChainReplaced(Err(BlockchainError::ChainReplacementRejected))
    ));
}
