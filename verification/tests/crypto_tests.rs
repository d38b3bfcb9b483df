use base64::Engine;
use ed25519_dalek::VerifyingKey;
use toy_blockchain::error::BlockchainError;
use toy_blockchain::transaction::{OutPoint, Transaction, TxIn, TxOut};
use toy_blockchain::utxo::UtxoSet;

fn spend_from(address: String, signature: &str) -> (Transaction, UtxoSet) {
    let tx = Transaction {
        inputs: vec![TxIn {
            prev_out: OutPoint {
                txid: "f".to_string(),
                index: 0,
            },
            signature: signature.to_string(),
        }],
        outputs: vec![TxOut {
            value: 1,
            address: "bob".to_string(),
        }],
        timestamp: 1,
    };
    let mut utxo = UtxoSet::new();
    utxo.insert(
        OutPoint {
            txid: "f".to_string(),
            index: 0,
        },
        TxOut {
            value: 2,
            address,
        },
    );
    (tx, utxo)
}

#[test]
fn a_point_off_the_curve_is_not_a_key() {
    let bad = (0u8..=255)
        .map(|b| [b; 32])
        .find(|bytes| VerifyingKey::from_bytes(bytes).is_err())
        .unwrap();
    let address = base64::engine::general_purpose::STANDARD.encode(bad);
    let (tx, utxo) = spend_from(address, &"00".repeat(64));
    assert!(matches!(
        tx.verify(&utxo),
        Err(BlockchainError::InvalidPublicKey)
    ));
}

#[test]
fn a_padded_base64_key_is_decoded() {
    let good = (0u8..=255)
        .map(|b| [b; 32])
        .find(|bytes| VerifyingKey::from_bytes(bytes).is_ok())
        .unwrap();
    let address = base64::engine::general_purpose::STANDARD.encode(good);
    assert!(address.ends_with('='));
    let (tx, utxo) = spend_from(address.clone(), &"00".repeat(64));
    assert!(matches!(
        tx.verify(&utxo),
        Err(BlockchainError::InvalidSignature)
    ));
    let unpadded = address.trim_end_matches('=').to_string();
    let (tx, utxo) = spend_from(unpadded, &"00".repeat(64));
    assert!(matches!(
        tx.verify(&utxo),
        Err(BlockchainError::InvalidPublicKey)
    ));
}

#[test]
fn uppercase_signature_hex_is_accepted_as_a_format() {
    let good = (0u8..=255)
        .map(|b| [b; 32])
        .find(|bytes| VerifyingKey::from_bytes(bytes).is_ok())
        .unwrap();
    let address = base64::engine::general_purpose::STANDARD.encode(good);
    let (tx, utxo) = spend_from(address, &"AB".repeat(64));
    assert!(matches!(
        tx.verify(&utxo),
        Err(BlockchainError::InvalidSignature)
    ));
}
