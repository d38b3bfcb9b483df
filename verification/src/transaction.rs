use vstd::prelude::*;
use vstd::utf8::encode_utf8;

use crate::crypto::{
    base64_decode, base64_decode_spec, ed25519_key_accepted, ed25519_signature_valid,
    ed25519_verify, parse_public_key, sha256, sha256_spec, to_array32, to_array64,
};
use crate::encoding::{
    hex_decode, hex_decode_spec, hex_encode, hex_encode_spec, le_bytes, push_all, push_le_bytes,
};
use crate::error::BlockchainError;
use crate::utxo::{out_point_eq, UtxoSet};

verus! {

/// A reference to one output of an earlier transaction.
#[derive(Debug)]
pub struct OutPoint {
    pub txid: String,
    pub index: u32,
}

/// An amount locked to an address (the base64 text of an Ed25519 verifying key).
#[derive(Debug)]
pub struct TxOut {
    pub value: u64,
    pub address: String,
}

/// Spends the output `prev_out`; `signature` is the hex text of an Ed25519 signature
/// of the spending transaction's id.
#[derive(Debug)]
pub struct TxIn {
    pub prev_out: OutPoint,
    pub signature: String,
}

#[derive(Debug)]
pub struct Transaction {
    pub inputs: Vec<TxIn>,
    pub outputs: Vec<TxOut>,
    pub timestamp: i64,
}

#[verifier::ext_equal]
pub struct OutPointView {
    pub txid: Seq<char>,
    pub index: u32,
}

#[verifier::ext_equal]
pub struct TxOutView {
    pub value: u64,
    pub address: Seq<char>,
}

#[verifier::ext_equal]
pub struct TxInView {
    pub prev_out: OutPointView,
    pub signature: Seq<char>,
}

#[verifier::ext_equal]
pub struct TransactionView {
    pub inputs: Seq<TxInView>,
    pub outputs: Seq<TxOutView>,
    pub timestamp: i64,
}

impl View for OutPoint {
    type V = OutPointView;

    open spec fn view(&self) -> OutPointView {
        OutPointView { txid: self.txid@, index: self.index }
    }
}

impl View for TxOut {
    type V = TxOutView;

    open spec fn view(&self) -> TxOutView {
        TxOutView { value: self.value, address: self.address@ }
    }
}

impl View for TxIn {
    type V = TxInView;

    open spec fn view(&self) -> TxInView {
        TxInView { prev_out: self.prev_out@, signature: self.signature@ }
    }
}

impl View for Transaction {
    type V = TransactionView;

    open spec fn view(&self) -> TransactionView {
        TransactionView {
            inputs: self.inputs@.map_values(|i: TxIn| i@),
            outputs: self.outputs@.map_values(|o: TxOut| o@),
            timestamp: self.timestamp,
        }
    }
}

impl Clone for OutPoint {
    fn clone(&self) -> (res: Self)
        ensures
            res@ == self@,
    {
        OutPoint { txid: self.txid.clone(), index: self.index }
    }
}

impl Clone for TxOut {
    fn clone(&self) -> (res: Self)
        ensures
            res@ == self@,
    {
        TxOut { value: self.value, address: self.address.clone() }
    }
}

impl Clone for TxIn {
    fn clone(&self) -> (res: Self)
        ensures
            res@ == self@,
    {
        TxIn { prev_out: self.prev_out.clone(), signature: self.signature.clone() }
    }
}

impl Clone for Transaction {
    fn clone(&self) -> (res: Self)
        ensures
            res@ == self@,
    {
        let mut inputs: Vec<TxIn> = Vec::new();
        let mut i: usize = 0;
        while i < self.inputs.len()
            invariant
                i <= self.inputs@.len(),
                inputs@.len() == i,
                forall|j: int| 0 <= j < i ==> #[trigger] inputs@[j]@ == self.inputs@[j]@,
            decreases self.inputs@.len() - i,
        {
            inputs.push(self.inputs[i].clone());
            i = i + 1;
        }
        let mut outputs: Vec<TxOut> = Vec::new();
        let mut k: usize = 0;
        while k < self.outputs.len()
            invariant
                k <= self.outputs@.len(),
                outputs@.len() == k,
                forall|j: int| 0 <= j < k ==> #[trigger] outputs@[j]@ == self.outputs@[j]@,
            decreases self.outputs@.len() - k,
        {
            outputs.push(self.outputs[k].clone());
            k = k + 1;
        }
        let res = Transaction { inputs, outputs, timestamp: self.timestamp };
        assert(res@.inputs =~= self@.inputs);
        assert(res@.outputs =~= self@.outputs);
        res
    }
}

/// The views of a list of transactions.
pub open spec fn transactions_view(txs: Seq<Transaction>) -> Seq<TransactionView> {
    txs.map_values(|t: Transaction| t@)
}

/// A text as the serializer writes it: its UTF-8 length as 8 little-endian bytes,
/// then its UTF-8 bytes.
pub open spec fn encode_text(s: Seq<char>) -> Seq<u8> {
    le_bytes(encode_utf8(s).len(), 8) + encode_utf8(s)
}

pub open spec fn encode_out_point(o: OutPointView) -> Seq<u8> {
    encode_text(o.txid) + le_bytes(o.index as nat, 4)
}

pub open spec fn encode_input(i: TxInView) -> Seq<u8> {
    encode_out_point(i.prev_out) + encode_text(i.signature)
}

pub open spec fn encode_output(o: TxOutView) -> Seq<u8> {
    le_bytes(o.value as nat, 8) + encode_text(o.address)
}

pub open spec fn encode_inputs(s: Seq<TxInView>) -> Seq<u8>
    decreases s.len(),
{
    if s.len() == 0 {
        Seq::empty()
    } else {
        encode_inputs(s.drop_last()) + encode_input(s.last())
    }
}

pub open spec fn encode_outputs(s: Seq<TxOutView>) -> Seq<u8>
    decreases s.len(),
{
    if s.len() == 0 {
        Seq::empty()
    } else {
        encode_outputs(s.drop_last()) + encode_output(s.last())
    }
}

/// The canonical byte encoding of a transaction, field by field in declaration order:
/// little-endian fixed-width integers, every sequence and text preceded by its length
/// as 8 little-endian bytes, the timestamp as its two's-complement 8 bytes.
pub open spec fn encode_transaction(t: TransactionView) -> Seq<u8> {
    le_bytes(t.inputs.len(), 8) + encode_inputs(t.inputs) + le_bytes(t.outputs.len(), 8)
        + encode_outputs(t.outputs) + le_bytes((t.timestamp as u64) as nat, 8)
}

/// The SHA-256 digest of a transaction's encoding.
pub open spec fn tx_digest(t: TransactionView) -> Seq<u8> {
    sha256_spec(encode_transaction(t))
}

/// A transaction's id: the lowercase hex text of its digest.
pub open spec fn tx_id(t: TransactionView) -> Seq<char> {
    hex_encode_spec(tx_digest(t))
}

fn push_text(out: &mut Vec<u8>, s: &String)
    ensures
        final(out)@ == old(out)@ + encode_text(s@),
{
    let bytes = s.as_str().as_bytes();
    push_le_bytes(out, bytes.len() as u64, 8);
    push_all(out, bytes);
    assert(out@ =~= old(out)@ + encode_text(s@));
}

impl Transaction {
    /// The canonical byte encoding of the transaction.
    pub fn encode(&self) -> (bytes: Vec<u8>)
        ensures
            bytes@ == encode_transaction(self@),
    {
        let mut out: Vec<u8> = Vec::new();
        push_le_bytes(&mut out, self.inputs.len() as u64, 8);
        let ghost start = out@;
        let mut i: usize = 0;
        while i < self.inputs.len()
            invariant
                i <= self.inputs@.len(),
                out@ == start + encode_inputs(self@.inputs.subrange(0, i as int)),
            decreases self.inputs@.len() - i,
        {
            let input = &self.inputs[i];
            push_text(&mut out, &input.prev_out.txid);
            push_le_bytes(&mut out, input.prev_out.index as u64, 4);
            push_text(&mut out, &input.signature);
            assert(self@.inputs.subrange(0, i + 1).drop_last() =~= self@.inputs.subrange(0, i as int));
            i = i + 1;
            assert(out@ =~= start + encode_inputs(self@.inputs.subrange(0, i as int)));
        }
        assert(self@.inputs.subrange(0, i as int) =~= self@.inputs);
        push_le_bytes(&mut out, self.outputs.len() as u64, 8);
        let ghost mid = out@;
        let mut k: usize = 0;
        while k < self.outputs.len()
            invariant
                k <= self.outputs@.len(),
                out@ == mid + encode_outputs(self@.outputs.subrange(0, k as int)),
            decreases self.outputs@.len() - k,
        {
            let output = &self.outputs[k];
            push_le_bytes(&mut out, output.value, 8);
            push_text(&mut out, &output.address);
            assert(self@.outputs.subrange(0, k + 1).drop_last() =~= self@.outputs.subrange(0, k as int));
            k = k + 1;
            assert(out@ =~= mid + encode_outputs(self@.outputs.subrange(0, k as int)));
        }
        assert(self@.outputs.subrange(0, k as int) =~= self@.outputs);
        push_le_bytes(&mut out, self.timestamp as u64, 8);
        assert(out@ =~= encode_transaction(self@));
        out
    }

    /// The transaction's id: the hex text of the SHA-256 digest of its encoding.
    pub fn id(&self) -> (id: String)
        ensures
            id@ == tx_id(self@),
            tx_digest(self@).len() == 32,
    {
        let bytes = self.encode();
        let digest = sha256(bytes.as_slice());
        hex_encode(digest.as_slice())
    }

    /// A transaction without inputs mints new value.
    pub fn is_coinbase(&self) -> (b: bool)
        ensures
            b == (self@.inputs.len() == 0),
    {
        self.inputs.len() == 0
    }
}

/// The key bytes that an address names: its base64 decoding, when that is 32 bytes
/// that form an accepted verifying key.
pub open spec fn address_key(address: Seq<char>) -> Option<Seq<u8>> {
    match base64_decode_spec(address) {
        Some(b) => if b.len() == 32 && ed25519_key_accepted(b) {
            Some(b)
        } else {
            None
        },
        None => None,
    }
}

/// The signature bytes that a signature text denotes: its hex decoding, when that is
/// 64 bytes.
pub open spec fn signature_bytes(signature: Seq<char>) -> Option<Seq<u8>> {
    match hex_decode_spec(signature) {
        Some(b) => if b.len() == 64 {
            Some(b)
        } else {
            None
        },
        None => None,
    }
}

/// The message that every input of a transaction signs: the UTF-8 bytes of its id.
pub open spec fn signed_message(tx: TransactionView) -> Seq<u8> {
    encode_utf8(tx_id(tx))
}

/// Checks input `j` of `tx`, the inputs before it having brought in `acc`: it must
/// spend an out-point that no earlier input spends and that `utxo` holds, the running
/// total must fit in 64 bits, the spent output's address must name a key, the
/// signature must be 64 bytes of hex, and it must verify. Gives the new total.
pub open spec fn input_step(
    tx: TransactionView,
    utxo: Map<OutPointView, TxOutView>,
    j: int,
    acc: int,
) -> Result<int, BlockchainError> {
    let input = tx.inputs[j];
    if exists|m: int| 0 <= m < j && #[trigger] tx.inputs[m].prev_out == input.prev_out {
        Err(BlockchainError::DuplicateInput)
    } else if !utxo.contains_key(input.prev_out) {
        Err(BlockchainError::InputNotFound)
    } else if acc + utxo[input.prev_out].value > u64::MAX {
        Err(BlockchainError::InvalidTransaction)
    } else if address_key(utxo[input.prev_out].address) is None {
        Err(BlockchainError::InvalidPublicKey)
    } else if signature_bytes(input.signature) is None {
        Err(BlockchainError::InvalidSignatureFormat)
    } else if !ed25519_signature_valid(
        address_key(utxo[input.prev_out].address)->0,
        signed_message(tx),
        signature_bytes(input.signature)->0,
    ) {
        Err(BlockchainError::InvalidSignature)
    } else {
        Ok(acc + utxo[input.prev_out].value)
    }
}

/// The outcome of checking the first `k` inputs in order: the total value they bring
/// in, or the first error.
pub open spec fn inputs_state(
    tx: TransactionView,
    utxo: Map<OutPointView, TxOutView>,
    k: nat,
) -> Result<int, BlockchainError>
    decreases k,
{
    if k == 0 {
        Ok(0)
    } else {
        match inputs_state(tx, utxo, (k - 1) as nat) {
            Ok(acc) => input_step(tx, utxo, k - 1, acc),
            Err(e) => Err(e),
        }
    }
}

/// The sum of the values of outputs.
pub open spec fn output_total(outputs: Seq<TxOutView>) -> int
    decreases outputs.len(),
{
    if outputs.len() == 0 {
        0
    } else {
        output_total(outputs.drop_last()) + outputs.last().value
    }
}

/// The outcome of checking a transaction against the unspent outputs `utxo`.
#[verifier::opaque]
pub open spec fn verify_spec(
    tx: TransactionView,
    utxo: Map<OutPointView, TxOutView>,
) -> Result<(), BlockchainError> {
    if tx.outputs.len() == 0 {
        Err(BlockchainError::InvalidTransaction)
    } else if exists|i: int| 0 <= i < tx.outputs.len() && (#[trigger] tx.outputs[i]).address.len() == 0 {
        Err(BlockchainError::InvalidTransaction)
    } else if tx.inputs.len() == 0 {
        Ok(())
    } else {
        match inputs_state(tx, utxo, tx.inputs.len()) {
            Err(e) => Err(e),
            Ok(input_value) => if output_total(tx.outputs) > u64::MAX {
                Err(BlockchainError::InvalidTransaction)
            } else if input_value < output_total(tx.outputs) {
                Err(BlockchainError::InsufficientBalance)
            } else {
                Ok(())
            },
        }
    }
}

/// Once checking the inputs has failed, it stays failed with the same error.
proof fn lemma_inputs_state_err(tx: TransactionView, utxo: Map<OutPointView, TxOutView>, k: nat, n: nat)
    requires
        k <= n,
        inputs_state(tx, utxo, k) is Err,
    ensures
        inputs_state(tx, utxo, n) == inputs_state(tx, utxo, k),
    decreases n - k,
{
    if k < n {
        lemma_inputs_state_err(tx, utxo, k, (n - 1) as nat);
    }
}

/// Prefix sums of output values never decrease.
proof fn lemma_output_total_monotone(outputs: Seq<TxOutView>, k: int)
    requires
        0 <= k <= outputs.len(),
    ensures
        output_total(outputs.subrange(0, k)) <= output_total(outputs),
    decreases outputs.len() - k,
{
    if k < outputs.len() {
        lemma_output_total_monotone(outputs, k + 1);
        assert(outputs.subrange(0, k + 1).drop_last() =~= outputs.subrange(0, k));
    } else {
        assert(outputs.subrange(0, k) =~= outputs);
    }
}

impl Transaction {
    /// Checks the transaction against the unspent outputs `utxo_set`; see `verify_spec`.
    pub fn verify(&self, utxo_set: &UtxoSet) -> (res: Result<(), BlockchainError>)
        ensures
            res == verify_spec(self@, utxo_set@),
    {
        reveal(verify_spec);
        if self.outputs.len() == 0 {
            return Err(BlockchainError::InvalidTransaction);
        }
        let txid = self.id();
        let mut o: usize = 0;
        while o < self.outputs.len()
            invariant
                o <= self@.outputs.len(),
                forall|i: int| 0 <= i < o ==> (#[trigger] self@.outputs[i]).address.len() != 0,
            decreases self@.outputs.len() - o,
        {
            proof {
                reveal(verify_spec);
            }
            if self.outputs[o].address.as_str().is_empty() {
                assert(self@.outputs[o as int].address.len() == 0);
                return Err(BlockchainError::InvalidTransaction);
            }
            o = o + 1;
        }
        if self.is_coinbase() {
            return Ok(());
        }
        let ghost tx = self@;
        let ghost utxo = utxo_set@;
        let mut input_value: u64 = 0;
        let mut i: usize = 0;
        while i < self.inputs.len()
            invariant
                tx == self@,
                utxo == utxo_set@,
                txid@ == tx_id(tx),
                i <= tx.inputs.len(),
                inputs_state(tx, utxo, i as nat) == Ok::<int, BlockchainError>(input_value as int),
                tx.inputs.len() > 0,
                tx.outputs.len() > 0,
                forall|i: int| 0 <= i < tx.outputs.len() ==> (#[trigger] tx.outputs[i]).address.len() != 0,
            decreases tx.inputs.len() - i,
        {
            proof {
                reveal(verify_spec);
            }
            let input = &self.inputs[i];
            let ghost acc = input_value as int;
            proof {
                assert(tx.inputs[i as int] == input@);
                assert(inputs_state(tx, utxo, (i + 1) as nat) == input_step(tx, utxo, i as int, acc));
            }
            let mut m: usize = 0;
            #[verifier::loop_isolation(false)]
            while m < i
                invariant
                    tx == self@,
                    i < tx.inputs.len(),
                    m <= i,
                    forall|q: int| 0 <= q < m ==> #[trigger] tx.inputs[q].prev_out != tx.inputs[i as int].prev_out,
                decreases i - m,
            {
                proof {
                    assert(tx.inputs[m as int] == self.inputs@[m as int]@);
                }
                if out_point_eq(&self.inputs[m].prev_out, &input.prev_out) {
                    proof {
                        assert(tx.inputs[m as int].prev_out == tx.inputs[i as int].prev_out);
                        lemma_inputs_state_err(tx, utxo, (i + 1) as nat, tx.inputs.len());
                    }
                    return Err(BlockchainError::DuplicateInput);
                }
                m = m + 1;
            }
            let prev_txout = match utxo_set.get(&input.prev_out) {
                Some(out) => out,
                None => {
                    proof {
                        lemma_inputs_state_err(tx, utxo, (i + 1) as nat, tx.inputs.len());
                    }
                    return Err(BlockchainError::InputNotFound);
                },
            };
            input_value = match input_value.checked_add(prev_txout.value) {
                Some(v) => v,
                None => {
                    proof {
                        lemma_inputs_state_err(tx, utxo, (i + 1) as nat, tx.inputs.len());
                    }
                    return Err(BlockchainError::InvalidTransaction);
                },
            };
            let sender_bytes = match base64_decode(prev_txout.address.as_str()) {
                Some(b) => b,
                None => {
                    proof {
                        lemma_inputs_state_err(tx, utxo, (i + 1) as nat, tx.inputs.len());
                    }
                    return Err(BlockchainError::InvalidPublicKey);
                },
            };
            if sender_bytes.len() != 32 {
                proof {
                    lemma_inputs_state_err(tx, utxo, (i + 1) as nat, tx.inputs.len());
                }
                return Err(BlockchainError::InvalidPublicKey);
            }
            let sender_pk_bytes = to_array32(sender_bytes.as_slice());
            let sender_pk = match parse_public_key(&sender_pk_bytes) {
                Some(k) => k,
                None => {
                    proof {
                        lemma_inputs_state_err(tx, utxo, (i + 1) as nat, tx.inputs.len());
                    }
                    return Err(BlockchainError::InvalidPublicKey);
                },
            };
            let sig_bytes = match hex_decode(input.signature.as_str()) {
                Some(b) => b,
                None => {
                    proof {
                        lemma_inputs_state_err(tx, utxo, (i + 1) as nat, tx.inputs.len());
                    }
                    return Err(BlockchainError::InvalidSignatureFormat);
                },
            };
            if sig_bytes.len() != 64 {
                proof {
                    lemma_inputs_state_err(tx, utxo, (i + 1) as nat, tx.inputs.len());
                }
                return Err(BlockchainError::InvalidSignatureFormat);
            }
            let signature = to_array64(sig_bytes.as_slice());
            if !ed25519_verify(&sender_pk, txid.as_str().as_bytes(), &signature) {
                proof {
                    lemma_inputs_state_err(tx, utxo, (i + 1) as nat, tx.inputs.len());
                }
                return Err(BlockchainError::InvalidSignature);
            }
            i = i + 1;
        }
        let mut output_value: u64 = 0;
        let mut k: usize = 0;
        while k < self.outputs.len()
            invariant
                tx == self@,
                utxo == utxo_set@,
                k <= tx.outputs.len(),
                output_value as int == output_total(tx.outputs.subrange(0, k as int)),
                inputs_state(tx, utxo, tx.inputs.len()) == Ok::<int, BlockchainError>(input_value as int),
                tx.inputs.len() > 0,
                tx.outputs.len() > 0,
                forall|i: int| 0 <= i < tx.outputs.len() ==> (#[trigger] tx.outputs[i]).address.len() != 0,
            decreases tx.outputs.len() - k,
        {
            proof {
                reveal(verify_spec);
            }
            proof {
                assert(tx.outputs.subrange(0, k + 1).drop_last() =~= tx.outputs.subrange(0, k as int));
                assert(tx.outputs[k as int] == self.outputs@[k as int]@);
            }
            output_value = match output_value.checked_add(self.outputs[k].value) {
                Some(v) => v,
                None => {
                    proof {
                        let pre = tx.outputs.subrange(0, k + 1);
                        assert(pre.last() == tx.outputs[k as int]);
                        assert(output_total(pre) == output_value + self.outputs@[k as int].value);
                        lemma_output_total_monotone(tx.outputs, k + 1);
                    }
                    return Err(BlockchainError::InvalidTransaction);
                },
            };
            k = k + 1;
        }
        proof {
            assert(tx.outputs.subrange(0, k as int) =~= tx.outputs);
        }
        if input_value < output_value {
            return Err(BlockchainError::InsufficientBalance);
        }
        Ok(())
    }
}

} // verus!
