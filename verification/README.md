# toy_blockchain

A small UTXO blockchain node whose rules are proved with Verus.

- `src/` is the verified library: transactions and their canonical encoding and
  ids, signature checks, the unspent-output set, the mempool, Merkle roots,
  proof-of-work blocks, chain validation, block and chain acceptance, mining,
  balances, coin selection and wallet previews, and peer-message framing. Each
  public function states its result over the views in `chain_rules.rs`,
  `block.rs` and `transaction.rs`; `laws.rs` proves properties that span
  several operations. Calls into `sha2`, `hex`, `base64`, `ed25519-dalek`,
  `merkle_light` and `chrono` go through small trusted wrappers whose contracts
  are stated next to them.
- `app/` is the node around it: the `sled` store, the `axum` REST API, the
  `tokio` peer-to-peer layer and the serde/bincode copies of the library types.
- `tests/` runs the library with the real outside crates.
