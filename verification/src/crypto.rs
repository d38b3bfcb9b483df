use vstd::prelude::*;
use base64::Engine;
use ed25519_dalek::Verifier;
use sha2::Digest;

verus! {

/// What SHA-256 gives for a byte string.
pub uninterp spec fn sha256_spec(data: Seq<u8>) -> Seq<u8>;

/// What standard-alphabet, padded base64 decoding gives for a text, `None` where it
/// reports an error.
pub uninterp spec fn base64_decode_spec(text: Seq<char>) -> Option<Seq<u8>>;

/// Whether 32 bytes are the compressed form of a point that an Ed25519 verifying key
/// accepts.
pub uninterp spec fn ed25519_key_accepted(key: Seq<u8>) -> bool;

/// Whether a 64-byte Ed25519 signature of `message` verifies under the key whose
/// compressed form is `key`.
pub uninterp spec fn ed25519_signature_valid(key: Seq<u8>, message: Seq<u8>, signature: Seq<u8>) -> bool;

/// `sha2::Sha256::digest`: the SHA-256 digest of `data`, 32 bytes.
#[verifier::external_body]
pub(crate) fn sha256(data: &[u8]) -> (digest: [u8; 32])
    ensures
        digest@ == sha256_spec(data@),
{
    sha2::Sha256::digest(data).into()
}

/// `base64::engine::general_purpose::STANDARD.decode`: the bytes that `text` encodes,
/// `None` where the engine reports an error.
#[verifier::external_body]
pub(crate) fn base64_decode(text: &str) -> (bytes: Option<Vec<u8>>)
    ensures
        match bytes {
            Some(b) => base64_decode_spec(text@) == Some(b@),
            None => base64_decode_spec(text@) is None,
        },
{
    base64::engine::general_purpose::STANDARD.decode(text).ok()
}

#[verifier::external_type_specification]
#[verifier::external_body]
pub struct ExVerifyingKey(ed25519_dalek::VerifyingKey);

/// An Ed25519 verifying key together with the 32 bytes it was read from.
pub(crate) struct PublicKey {
    key: ed25519_dalek::VerifyingKey,
    encoded: Ghost<Seq<u8>>,
}

impl PublicKey {
    /// The 32 bytes the key was read from.
    pub(crate) closed spec fn bytes(&self) -> Seq<u8> {
        self.encoded@
    }
}

/// `ed25519_dalek::VerifyingKey::from_bytes`: the key whose compressed form is
/// `bytes`, `None` where the point does not decompress.
#[verifier::external_body]
pub(crate) fn parse_public_key(bytes: &[u8; 32]) -> (key: Option<PublicKey>)
    ensures
        key is Some <==> ed25519_key_accepted(bytes@),
        key matches Some(k) ==> k.bytes() == bytes@,
{
    match ed25519_dalek::VerifyingKey::from_bytes(bytes) {
        Ok(key) => Some(PublicKey { key, encoded: Ghost(bytes@) }),
        Err(_) => None,
    }
}

/// `<VerifyingKey as Verifier<Signature>>::verify`, with the signature read by
/// `Signature::from_bytes`: whether `signature` is a valid signature of `message`
/// under `key`.
#[verifier::external_body]
pub(crate) fn ed25519_verify(key: &PublicKey, message: &[u8], signature: &[u8; 64]) -> (valid: bool)
    ensures
        valid == ed25519_signature_valid(key.bytes(), message@, signature@),
{
    key.key.verify(message, &ed25519_dalek::Signature::from_bytes(signature)).is_ok()
}

/// `chrono::Utc::now().timestamp()`: the current time in seconds since the Unix epoch.
/// Nothing is stated of the value: it depends on the clock.
#[verifier::external_body]
pub(crate) fn now_timestamp() -> (seconds: i64) {
    chrono::Utc::now().timestamp()
}

/// The first 32 bytes of `bytes` as an array.
pub fn to_array32(bytes: &[u8]) -> (out: [u8; 32])
    requires
        bytes@.len() == 32,
    ensures
        out@ == bytes@,
{
    let mut out = [0u8; 32];
    let mut i: usize = 0;
    while i < 32
        invariant
            i <= 32,
            bytes@.len() == 32,
            out@.len() == 32,
            forall|j: int| 0 <= j < i ==> out@[j] == bytes@[j],
        decreases 32 - i,
    {
        out[i] = bytes[i];
        i = i + 1;
    }
    assert(out@ =~= bytes@);
    out
}

/// The first 64 bytes of `bytes` as an array.
pub fn to_array64(bytes: &[u8]) -> (out: [u8; 64])
    requires
        bytes@.len() == 64,
    ensures
        out@ == bytes@,
{
    let mut out = [0u8; 64];
    let mut i: usize = 0;
    while i < 64
        invariant
            i <= 64,
            bytes@.len() == 64,
            out@.len() == 64,
            forall|j: int| 0 <= j < i ==> out@[j] == bytes@[j],
        decreases 64 - i,
    {
        out[i] = bytes[i];
        i = i + 1;
    }
    assert(out@ =~= bytes@);
    out
}

} // verus!
