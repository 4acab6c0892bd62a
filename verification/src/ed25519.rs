//! Ed25519 (RFC 8032) signer and verification arm, backed by `ed25519-dalek`.
use vstd::prelude::*;

use vstd::string::{StringExecFns, StringSliceAdditionalSpecFns};

use crate::checkpoint::to_digest;
use crate::crypto::{Algorithm, CryptoError, PublicKey, Signature, Signer};

verus! {

/// Length of an Ed25519 public key in bytes.
pub const PUBLIC_KEY_LENGTH: usize = 32;
/// Length of an Ed25519 signature in bytes.
pub const SIGNATURE_LENGTH: usize = 64;

/// Whether `ed25519_dalek::VerifyingKey::from_bytes` accepts the 32 bytes `pk`
/// (a canonical compressed Edwards point).
pub uninterp spec fn spec_key_decodes(pk: Seq<u8>) -> bool;

/// Whether `ed25519_dalek::VerifyingKey::verify` accepts the 64-byte signature
/// `sig` over `payload` under the decoded key `pk`.
pub uninterp spec fn spec_signature_accepted(payload: Seq<u8>, sig: Seq<u8>, pk: Seq<u8>) -> bool;

/// Calls `ed25519_dalek::VerifyingKey::from_bytes` on the 32 bytes of `pk`.
/// Claims only that the answer is a function of those bytes.
#[verifier::external_body]
fn key_decodes(pk: &[u8]) -> (r: bool)
    requires
        pk@.len() == PUBLIC_KEY_LENGTH,
    ensures
        r == spec_key_decodes(pk@),
{
    let arr: [u8; 32] = pk.try_into().unwrap();
    ed25519_dalek::VerifyingKey::from_bytes(&arr).is_ok()
}

/// Calls `ed25519_dalek::VerifyingKey::verify` for the decoded key `pk` and the
/// 64-byte signature `sig`. Claims only that the answer is a function of the
/// payload, signature and key bytes.
#[verifier::external_body]
fn signature_accepted(payload: &[u8], sig: &[u8], pk: &[u8]) -> (r: bool)
    requires
        pk@.len() == PUBLIC_KEY_LENGTH,
        sig@.len() == SIGNATURE_LENGTH,
        spec_key_decodes(pk@),
    ensures
        r == spec_signature_accepted(payload@, sig@, pk@),
{
    let key_arr: [u8; 32] = pk.try_into().unwrap();
    let sig_arr: [u8; 64] = sig.try_into().unwrap();
    match ed25519_dalek::VerifyingKey::from_bytes(&key_arr) {
        Ok(key) => ed25519_dalek::Verifier::verify(&key, payload, &ed25519_dalek::Signature::from_bytes(&sig_arr)).is_ok(),
        Err(_) => false,
    }
}

/// What verifying a raw Ed25519 signature gives: a wrong-length or
/// undecodable key is a `MalformedKey` error, a wrong-length signature a
/// `MalformedSignature` error, otherwise the scheme's answer.
pub open spec fn spec_verify(payload: Seq<u8>, sig: Seq<u8>, pk: Seq<u8>) -> Result<bool, CryptoError> {
    if pk.len() != PUBLIC_KEY_LENGTH || !spec_key_decodes(pk) {
        Err(CryptoError::MalformedKey(Algorithm::Ed25519))
    } else if sig.len() != SIGNATURE_LENGTH {
        Err(CryptoError::MalformedSignature(Algorithm::Ed25519))
    } else {
        Ok(spec_signature_accepted(payload, sig, pk))
    }
}

/// Verify a raw Ed25519 signature. `Ok(false)` for a well-formed but invalid
/// signature; `Err` only when the key or signature bytes are malformed.
pub fn verify(payload: &[u8], sig_bytes: &[u8], pubkey_bytes: &[u8]) -> (r: Result<bool, CryptoError>)
    ensures
        r == spec_verify(payload@, sig_bytes@, pubkey_bytes@),
{
    if pubkey_bytes.len() != PUBLIC_KEY_LENGTH || !key_decodes(pubkey_bytes) {
        return Err(CryptoError::MalformedKey(Algorithm::Ed25519));
    }
    if sig_bytes.len() != SIGNATURE_LENGTH {
        return Err(CryptoError::MalformedSignature(Algorithm::Ed25519));
    }
    Ok(signature_accepted(payload, sig_bytes, pubkey_bytes))
}

/// The Ed25519 public key derived from the 32-byte secret seed `seed`
/// (RFC 8032), as `ed25519_dalek` computes it.
pub uninterp spec fn spec_public_from_seed(seed: Seq<u8>) -> Seq<u8>;

/// The deterministic Ed25519 signature (RFC 8032) of `payload` under the
/// secret seed `seed`, as `ed25519_dalek` computes it.
pub uninterp spec fn spec_sign_with_seed(seed: Seq<u8>, payload: Seq<u8>) -> Seq<u8>;

/// Calls `SigningKey::from_bytes(seed).verifying_key().to_bytes()`. Claims the
/// key is a function of the seed and, as for every key derived from a secret,
/// that its compressed point decodes again.
#[verifier::external_body]
fn public_from_seed(seed: &[u8; 32]) -> (r: [u8; 32])
    ensures
        r@ == spec_public_from_seed(seed@),
        spec_key_decodes(r@),
{
    ed25519_dalek::SigningKey::from_bytes(seed).verifying_key().to_bytes()
}

/// Calls `SigningKey::from_bytes(seed)` and signs `payload` with it. Claims the
/// signature is a function of seed and payload (RFC 8032 signing is
/// deterministic) and, by RFC 8032 correctness, that it verifies under the
/// seed's public key.
#[verifier::external_body]
fn sign_with_seed(seed: &[u8; 32], payload: &[u8]) -> (r: [u8; 64])
    ensures
        r@ == spec_sign_with_seed(seed@, payload@),
        spec_signature_accepted(payload@, r@, spec_public_from_seed(seed@)),
{
    ed25519_dalek::Signer::sign(&ed25519_dalek::SigningKey::from_bytes(seed), payload).to_bytes()
}

/// Calls `getrandom::getrandom` to fill a 32-byte seed from OS randomness.
/// Nothing is claimed of the bytes, or of when it fails.
#[verifier::external_body]
fn os_random_seed() -> (r: Result<[u8; 32], ()>) {
    let mut seed = [0u8; 32];
    match getrandom::getrandom(&mut seed) {
        Ok(()) => Ok(seed),
        Err(_) => Err(()),
    }
}

/// An Ed25519 keypair that can sign block payloads, held as its 32-byte
/// secret seed.
pub struct Ed25519Signer {
    seed: [u8; 32],
    public_key: PublicKey,
}

impl Ed25519Signer {
    #[verifier::type_invariant]
    spec fn inv(&self) -> bool {
        &&& self.public_key.algorithm == Algorithm::Ed25519
        &&& self.public_key.bytes@ == spec_public_from_seed(self.seed@)
        &&& self.public_key.bytes@.len() == PUBLIC_KEY_LENGTH
        &&& spec_key_decodes(self.public_key.bytes@)
    }

    /// The secret seed, as a value.
    pub closed spec fn spec_seed(&self) -> Seq<u8> {
        self.seed@
    }

    /// Generate a fresh keypair from OS randomness.
    pub fn generate() -> (r: Result<Ed25519Signer, CryptoError>)
        ensures
            r matches Err(e) ==> e == CryptoError::Signing("ed25519 key generation: OS RNG failed"),
    {
        match os_random_seed() {
            Ok(seed) => Ok(Ed25519Signer::from_seed(seed)),
            Err(_) => Err(CryptoError::Signing("ed25519 key generation: OS RNG failed")),
        }
    }

    /// Build a signer from a 32-byte secret seed (RFC 8032).
    pub fn from_seed(seed: [u8; 32]) -> (s: Ed25519Signer)
        ensures
            s.spec_seed() == seed@,
            s.spec_public_key_bytes() == spec_public_from_seed(seed@),
    {
        let pk = public_from_seed(&seed);
        let bytes = vstd::slice::slice_to_vec(pk.as_slice());
        Ed25519Signer { seed, public_key: PublicKey { algorithm: Algorithm::Ed25519, bytes } }
    }
}

impl Signer for Ed25519Signer {
    open spec fn spec_algorithm(&self) -> Algorithm {
        Algorithm::Ed25519
    }

    closed spec fn spec_public_key_bytes(&self) -> Seq<u8> {
        self.public_key.bytes@
    }

    open spec fn spec_verifies_own(&self) -> bool {
        true
    }

    /// Ed25519 signing is deterministic and cannot fail.
    open spec fn spec_always_signs(&self) -> bool {
        true
    }

    open spec fn spec_max_signature_len(&self) -> nat {
        SIGNATURE_LENGTH as nat
    }

    fn algorithm(&self) -> (a: Algorithm) {
        Algorithm::Ed25519
    }

    fn public_key(&self) -> (pk: PublicKey) {
        proof { use_type_invariant(self); }
        self.public_key.copy()
    }

    /// Signs deterministically; the signature always verifies under this
    /// signer's public key.
    fn sign(&self, payload: &[u8]) -> (r: Result<Signature, CryptoError>)
        ensures
            r matches Ok(sig) && sig.bytes@ == spec_sign_with_seed(self.spec_seed(), payload@)
                && sig.bytes@.len() == SIGNATURE_LENGTH
                && spec_verify(payload@, sig.bytes@, self.spec_public_key_bytes()) == Ok::<bool, CryptoError>(true),
    {
        proof { use_type_invariant(self); }
        let sig = sign_with_seed(&self.seed, payload);
        Ok(Signature { algorithm: Algorithm::Ed25519, bytes: vstd::slice::slice_to_vec(sig.as_slice()) })
    }
}

/// The value of a hexadecimal digit (`0-9`, `a-f`, `A-F`), if `c` is one.
pub open spec fn spec_hex_val(c: u8) -> Option<u8> {
    if 48 <= c <= 57 {
        Some((c - 48) as u8)
    } else if 97 <= c <= 102 {
        Some((c - 97 + 10) as u8)
    } else if 65 <= c <= 70 {
        Some((c - 65 + 10) as u8)
    } else {
        None
    }
}

/// What hex decoding gives: for an even number of hex digits, one byte per
/// pair (high nibble first); otherwise nothing.
pub open spec fn spec_hex_decode(s: Seq<u8>) -> Option<Seq<u8>> {
    if s.len() % 2 == 0 && forall|i: int| 0 <= i < s.len() ==> (#[trigger] spec_hex_val(s[i])) is Some {
        Some(
            Seq::new(
                s.len() / 2,
                |i: int| (spec_hex_val(s[2 * i])->0 * 16 + spec_hex_val(s[2 * i + 1])->0) as u8,
            ),
        )
    } else {
        None
    }
}

/// The message `hex::FromHexError` displays for an even-length input `s`
/// holding a byte that is not a hex digit (it names that byte and its
/// position).
pub uninterp spec fn spec_hex_error(s: Seq<u8>) -> Seq<char>;

/// Calls `hex::decode` on `input`, an error becoming its displayed message.
/// Claims what the crate's source shows: an odd number of digits is refused
/// with `Odd number of digits`; otherwise every byte must be a hex digit of
/// either case, and each pair becomes one byte, high nibble first. The message
/// for an invalid character is a function of the input.
#[verifier::external_body]
pub(crate) fn hex_decode(input: &[u8]) -> (r: Result<Vec<u8>, String>)
    ensures
        match spec_hex_decode(input@) {
            Some(v) => r matches Ok(w) && w@ == v,
            None => r matches Err(m) && m@ == (if input@.len() % 2 != 0 {
                "Odd number of digits"@
            } else {
                spec_hex_error(input@)
            }),
        },
{
    match hex::decode(input) {
        Ok(v) => Ok(v),
        Err(e) => Err(e.to_string()),
    }
}


/// What [`seed_from_hex`] returns for the bytes `s` of its argument: the 32
/// bytes `s` hex-decodes to, or why not — the decoding error's message after
/// `invalid hex seed: `, or a length error for any other byte count.
pub open spec fn spec_seed_from_hex(s: Seq<u8>) -> Result<Seq<u8>, Seq<char>> {
    match spec_hex_decode(s) {
        None => Err(
            "invalid hex seed: "@ + (if s.len() % 2 != 0 {
                "Odd number of digits"@
            } else {
                spec_hex_error(s)
            }),
        ),
        Some(b) => if b.len() != 32 {
            Err("seed must be exactly 32 bytes (64 hex chars)"@)
        } else {
            Ok(b)
        },
    }
}

/// Parse a 32-byte Ed25519 secret seed from hex (either case).
pub fn seed_from_hex(s: &str) -> (r: Result<[u8; 32], String>)
    ensures
        match spec_seed_from_hex(s.spec_bytes()) {
            Ok(b) => r matches Ok(seed) && seed@ == b,
            Err(m) => r matches Err(e) && e@ == m,
        },
{
    let bytes = match hex_decode(s.as_bytes()) {
        Ok(b) => b,
        Err(e) => {
            let mut m = String::new();
            m.append("invalid hex seed: ");
            m.append(e.as_str());
            return Err(m);
        },
    };
    if bytes.len() != 32 {
        let mut m = String::new();
        m.append("seed must be exactly 32 bytes (64 hex chars)");
        return Err(m);
    }
    Ok(to_digest(bytes.as_slice()))
}

} // verus!
