use base64::Engine;
use ed25519_dalek::{Signer, SigningKey};
use sha2::Digest;
use toy_blockchain::error::BlockchainError;
use toy_blockchain::transaction::{OutPoint, Transaction, TxIn, TxOut};
use toy_blockchain::utxo::UtxoSet;

fn key_address(seed: u8) -> (SigningKey, String) {
    let key = SigningKey::from_bytes(&[seed; 32]);
    let address =
        base64::engine::general_purpose::STANDARD.encode(key.verifying_key().to_bytes());
    (key, address)
}

fn spend(txid: &str, index: u32, signature: &str, value: u64, to: &str) -> Transaction {
    Transaction {
        inputs: vec![TxIn {
            prev_out: OutPoint {
                txid: txid.to_string(),
                index,
            },
            signature: signature.to_string(),
        }],
        outputs: vec![TxOut {
            value,
            address: to.to_string(),
        }],
        timestamp: 1,
    }
}

fn utxo_with(txid: &str, index: u32, value: u64, address: &str) -> UtxoSet {
    let mut utxo = UtxoSet::new();
    utxo.insert(
        OutPoint {
            txid: txid.to_string(),
            index,
        },
        TxOut {
            value,
            address: address.to_string(),
        },
    );
    utxo
}

#[test]
fn coinbase_transaction_is_valid_without_inputs() {
    let tx = Transaction {
        inputs: vec![],
        outputs: vec![TxOut {
            value: 50,
            address: "miner".to_string(),
        }],
        timestamp: 1,
    };

    assert!(tx.verify(&UtxoSet::new()).is_ok());
}

#[test]
fn transaction_verify_rejects_malformed_signature_format() {
    let tx = Transaction {
        inputs: vec![TxIn {
            prev_out: OutPoint {
                txid: "a".repeat(64),
                index: 0,
            },
            signature: "not-hex".to_string(),
        }],
        outputs: vec![TxOut {
            value: 5,
            address: "miner".to_string(),
        }],
        timestamp: 1,
    };

    let mut utxo = UtxoSet::new();
    utxo.insert(
        tx.inputs[0].prev_out.clone(),
        TxOut {
            value: 5,
            address: "miner".to_string(),
        },
    );

    assert!(tx.verify(&utxo).is_err());
}

#[test]
fn transaction_verify_rejects_unknown_input() {
    let tx = Transaction {
        inputs: vec![TxIn {
            prev_out: OutPoint {
                txid: "b".repeat(64),
                index: 0,
            },
            signature: "00".repeat(32),
        }],
        outputs: vec![TxOut {
            value: 5,
            address: "miner".to_string(),
        }],
        timestamp: 1,
    };

    assert!(tx.verify(&UtxoSet::new()).is_err());
}

#[test]
fn verify_reports_each_error_kind() {
    let (_, address) = key_address(7);
    let no_outputs = Transaction {
        inputs: vec![],
        outputs: vec![],
        timestamp: 1,
    };
    assert!(matches!(
        no_outputs.verify(&UtxoSet::new()),
        Err(BlockchainError::InvalidTransaction)
    ));

    let empty_address = spend("t", 0, "", 1, "");
    assert!(matches!(
        empty_address.verify(&UtxoSet::new()),
        Err(BlockchainError::InvalidTransaction)
    ));

    let unknown = spend("t", 0, "", 1, "bob");
    assert!(matches!(
        unknown.verify(&UtxoSet::new()),
        Err(BlockchainError::InputNotFound)
    ));

    let bad_key = spend("t", 0, &"00".repeat(64), 1, "bob");
    assert!(matches!(
        bad_key.verify(&utxo_with("t", 0, 5, "not base64!")),
        Err(BlockchainError::InvalidPublicKey)
    ));
    let short_key = base64::engine::general_purpose::STANDARD.encode([1u8; 16]);
    assert!(matches!(
        bad_key.verify(&utxo_with("t", 0, 5, &short_key)),
        Err(BlockchainError::InvalidPublicKey)
    ));

    let bad_sig_hex = spend("t", 0, "xyz", 1, "bob");
    assert!(matches!(
        bad_sig_hex.verify(&utxo_with("t", 0, 5, &address)),
        Err(BlockchainError::InvalidSignatureFormat)
    ));
    let short_sig = spend("t", 0, &"00".repeat(32), 1, "bob");
    assert!(matches!(
        short_sig.verify(&utxo_with("t", 0, 5, &address)),
        Err(BlockchainError::InvalidSignatureFormat)
    ));

    let wrong_sig = spend("t", 0, &"00".repeat(64), 1, "bob");
    assert!(matches!(
        wrong_sig.verify(&utxo_with("t", 0, 5, &address)),
        Err(BlockchainError::InvalidSignature)
    ));
}

#[test]
fn lookup_failure_comes_before_the_duplicate_check() {
    let tx = Transaction {
        inputs: vec![
            TxIn {
                prev_out: OutPoint {
                    txid: "missing".to_string(),
                    index: 0,
                },
                signature: String::new(),
            },
            TxIn {
                prev_out: OutPoint {
                    txid: "missing".to_string(),
                    index: 0,
                },
                signature: String::new(),
            },
        ],
        outputs: vec![TxOut {
            value: 1,
            address: "bob".to_string(),
        }],
        timestamp: 3,
    };
    assert!(matches!(
        tx.verify(&UtxoSet::new()),
        Err(BlockchainError::InputNotFound)
    ));
}

#[test]
fn a_signature_of_the_unsigned_id_does_not_verify() {
    let (key, address) = key_address(9);
    let mut tx = spend("funding", 0, "", 3, "bob");
    let signature = key.sign(tx.id().as_bytes());
    tx.inputs[0].signature = hex::encode(signature.to_bytes());
    assert!(matches!(
        tx.verify(&utxo_with("funding", 0, 5, &address)),
        Err(BlockchainError::InvalidSignature)
    ));
}

fn push_text(out: &mut Vec<u8>, s: &str) {
    out.extend_from_slice(&(s.len() as u64).to_le_bytes());
    out.extend_from_slice(s.as_bytes());
}

#[test]
fn encoding_follows_the_field_layout() {
    let tx = Transaction {
        inputs: vec![TxIn {
            prev_out: OutPoint {
                txid: "ab".to_string(),
                index: 7,
            },
            signature: "sig".to_string(),
        }],
        outputs: vec![TxOut {
            value: 300,
            address: "bob".to_string(),
        }],
        timestamp: -2,
    };
    let mut expected = Vec::new();
    expected.extend_from_slice(&1u64.to_le_bytes());
    push_text(&mut expected, "ab");
    expected.extend_from_slice(&7u32.to_le_bytes());
    push_text(&mut expected, "sig");
    expected.extend_from_slice(&1u64.to_le_bytes());
    expected.extend_from_slice(&300u64.to_le_bytes());
    push_text(&mut expected, "bob");
    expected.extend_from_slice(&(-2i64).to_le_bytes());
    assert_eq!(tx.encode(), expected);

    let digest = sha2::Sha256::digest(&expected);
    assert_eq!(tx.id(), hex::encode(digest));
}

#[test]
fn id_is_lowercase_hex_of_32_bytes_and_changes_with_content() {
    let a = spend("t", 0, "", 1, "bob");
    let b = spend("t", 0, "", 2, "bob");
    let id = a.id();
    assert_eq!(id.len(), 64);
    assert!(id.chars().all(|c| c.is_ascii_hexdigit() && !c.is_ascii_uppercase()));
    assert_eq!(id, a.clone().id());
    assert_ne!(id, b.id());
    assert!(a.clone().inputs.len() == 1 && !a.is_coinbase());
}

#[test]
fn encoding_matches_bincode_of_the_same_fields() {
    let tx = Transaction {
        inputs: vec![
            TxIn {
                prev_out: OutPoint {
                    txid: "é-tx".to_string(),
                    index: 3,
                },
                signature: "00ff".to_string(),
            },
            TxIn {
                prev_out: OutPoint {
                    txid: String::new(),
                    index: u32::MAX,
                },
                signature: "s".to_string(),
            },
        ],
        outputs: vec![
            TxOut {
                value: u64::MAX,
                address: "alice".to_string(),
            },
            TxOut {
                value: 0,
                address: "b".to_string(),
            },
        ],
        timestamp: i64::MIN,
    };
    let fields = (
        vec![
            (("é-tx".to_string(), 3u32), "00ff".to_string()),
            ((String::new(), u32::MAX), "s".to_string()),
        ],
        vec![(u64::MAX, "alice".to_string()), (0u64, "b".to_string())],
        i64::MIN,
    );
    let expected = bincode::serialize(&fields).unwrap();
    assert_eq!(tx.encode(), expected);
    assert_eq!(tx.id(), hex::encode(sha2::Sha256::digest(&expected)));
}

#[test]
fn utxo_set_keeps_one_entry_per_out_point() {
    let mut utxo = utxo_with("t", 0, 5, "alice");
    utxo.insert(
        OutPoint {
            txid: "t".to_string(),
            index: 0,
        },
        TxOut {
            value: 9,
            address: "bob".to_string(),
        },
    );
    assert_eq!(utxo.len(), 1);
    let key = OutPoint {
        txid: "t".to_string(),
        index: 0,
    };
    assert_eq!(utxo.get(&key).unwrap().value, 9);
    utxo.insert(
        OutPoint {
            txid: "t".to_string(),
            index: 1,
        },
        TxOut {
            value: 1,
            address: "bob".to_string(),
        },
    );
    assert_eq!(utxo.len(), 2);
    utxo.remove(&key);
    assert_eq!(utxo.len(), 1);
    assert!(!utxo.contains_key(&key));
}
