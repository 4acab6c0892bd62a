//! ML-DSA-87 (FIPS-204) signer and verification arm, backed by `fips204`.
//! Every operation uses the empty signing context: the payload already carries
//! all binding data, and signing and verification agree on the context.
use vstd::prelude::*;

use fips204::traits::{SerDes, Signer as _, Verifier as _};

use crate::crypto::{Algorithm, CryptoError, PublicKey, Signature, Signer};

verus! {

/// Length of an ML-DSA-87 public key in bytes.
pub const PK_LEN: usize = 2592;
/// Length of an ML-DSA-87 signature in bytes.
pub const SIG_LEN: usize = 4627;

/// Length of an ML-DSA-87 private key in bytes.
pub const SK_LEN: usize = 4896;

/// The public key bytes that `fips204` derives (`get_public_key`) from the
/// ML-DSA-87 private key that the `SK_LEN` bytes `sk` encode.
pub uninterp spec fn spec_public_of(sk: Seq<u8>) -> Seq<u8>;

/// Whether the `SK_LEN` bytes `sk` encode a private key as
/// `fips204::ml_dsa_87::try_keygen` produces one: a key whose stored hash of
/// the public key (`tr`) and stored `t0` agree with the public key that
/// `get_public_key` rebuilds from it. (`PrivateKey::try_from_bytes` checks only
/// the ranges of the parts, not this agreement.)
pub uninterp spec fn spec_generated_key(sk: Seq<u8>) -> bool;

/// Whether `fips204::ml_dsa_87::PublicKey::try_from_bytes` accepts the
/// `PK_LEN` bytes `pk`.
pub uninterp spec fn spec_key_decodes(pk: Seq<u8>) -> bool;

/// Whether `fips204`'s ML-DSA-87 `verify` accepts the `SIG_LEN`-byte signature
/// `sig` over `payload` under the decoded key `pk`, with the empty context.
pub uninterp spec fn spec_signature_accepted(payload: Seq<u8>, sig: Seq<u8>, pk: Seq<u8>) -> bool;

/// Calls `fips204::ml_dsa_87::PublicKey::try_from_bytes` on the `PK_LEN` bytes
/// of `pk`. Claims only that the answer is a function of those bytes.
#[verifier::external_body]
fn key_decodes(pk: &[u8]) -> (r: bool)
    requires
        pk@.len() == PK_LEN,
    ensures
        r == spec_key_decodes(pk@),
{
    let arr: [u8; 2592] = pk.try_into().unwrap();
    fips204::ml_dsa_87::PublicKey::try_from_bytes(arr).is_ok()
}

/// Calls `fips204`'s ML-DSA-87 `verify` (empty context) for the decoded key
/// `pk` and the `SIG_LEN`-byte signature `sig`. Claims only that the answer is a
/// function of the payload, signature and key bytes.
#[verifier::external_body]
fn signature_accepted(payload: &[u8], sig: &[u8], pk: &[u8]) -> (r: bool)
    requires
        pk@.len() == PK_LEN,
        sig@.len() == SIG_LEN,
        spec_key_decodes(pk@),
    ensures
        r == spec_signature_accepted(payload@, sig@, pk@),
{
    let key_arr: [u8; 2592] = pk.try_into().unwrap();
    let sig_arr: [u8; 4627] = sig.try_into().unwrap();
    match fips204::ml_dsa_87::PublicKey::try_from_bytes(key_arr) {
        Ok(key) => key.verify(payload, &sig_arr, &[]),
        Err(_) => false,
    }
}

/// Calls `fips204::ml_dsa_87::try_keygen` (OS randomness) and returns the
/// encodings of the private and the public key. Claims what `fips204`
/// documents of a fresh key pair: the two lengths, that the private key is a
/// generated one, that the public key decodes again, and that it is the public
/// key derived from the private key. The keys themselves are random.
#[verifier::external_body]
fn keygen() -> (r: Result<(Vec<u8>, Vec<u8>), &'static str>)
    ensures
        r matches Ok((sk, pk)) ==> sk@.len() == SK_LEN && pk@.len() == PK_LEN && spec_generated_key(sk@)
            && spec_key_decodes(pk@) && pk@ == spec_public_of(sk@),
{
    match fips204::ml_dsa_87::try_keygen() {
        Ok((pk, sk)) => Ok((sk.into_bytes().to_vec(), pk.into_bytes().to_vec())),
        Err(e) => Err(e),
    }
}

/// Decodes the private key `sk` (`PrivateKey::try_from_bytes`) and calls
/// `try_sign` on it (empty context, OS randomness). For a private key that
/// `try_keygen` produced (`requires`), claims what `fips204` documents of a
/// signature: it has `SIG_LEN` bytes and `verify` (empty context) accepts it
/// under the public key derived from the private key. Signing uses the stored
/// `tr` and `t0`, so for a key that decodes but is not consistent the claim
/// would not hold; such keys are kept out. Hedged signing is randomized;
/// nothing else about the bytes is claimed.
#[verifier::external_body]
fn sign_with(sk: &[u8], payload: &[u8]) -> (r: Result<Vec<u8>, &'static str>)
    requires
        sk@.len() == SK_LEN,
        spec_generated_key(sk@),
    ensures
        r matches Ok(sig) ==> sig@.len() == SIG_LEN && spec_signature_accepted(payload@, sig@, spec_public_of(sk@)),
{
    let arr: [u8; 4896] = sk.try_into().unwrap();
    match fips204::ml_dsa_87::PrivateKey::try_from_bytes(arr) {
        Ok(key) => match key.try_sign(payload, &[]) {
            Ok(sig) => Ok(sig.to_vec()),
            Err(e) => Err(e),
        },
        Err(e) => Err(e),
    }
}

/// What verifying a raw ML-DSA-87 signature gives: a wrong-length or
/// undecodable key is a `MalformedKey` error, a wrong-length signature a
/// `MalformedSignature` error, otherwise the scheme's answer.
pub open spec fn spec_verify(payload: Seq<u8>, sig: Seq<u8>, pk: Seq<u8>) -> Result<bool, CryptoError> {
    if pk.len() != PK_LEN || !spec_key_decodes(pk) {
        Err(CryptoError::MalformedKey(Algorithm::MlDsa87))
    } else if sig.len() != SIG_LEN {
        Err(CryptoError::MalformedSignature(Algorithm::MlDsa87))
    } else {
        Ok(spec_signature_accepted(payload, sig, pk))
    }
}

/// Verify a raw ML-DSA-87 signature. `Ok(false)` for a well-formed but invalid
/// signature; `Err` only when the key or signature bytes are malformed.
pub fn verify(payload: &[u8], sig_bytes: &[u8], pubkey_bytes: &[u8]) -> (r: Result<bool, CryptoError>)
    ensures
        r == spec_verify(payload@, sig_bytes@, pubkey_bytes@),
{
    if pubkey_bytes.len() != PK_LEN || !key_decodes(pubkey_bytes) {
        return Err(CryptoError::MalformedKey(Algorithm::MlDsa87));
    }
    if sig_bytes.len() != SIG_LEN {
        return Err(CryptoError::MalformedSignature(Algorithm::MlDsa87));
    }
    Ok(signature_accepted(payload, sig_bytes, pubkey_bytes))
}

/// An ML-DSA-87 keypair that can sign block payloads, the private key held as
/// its `SK_LEN`-byte encoding.
pub struct MlDsa87Signer {
    secret_key: Vec<u8>,
    public_key: PublicKey,
}

impl MlDsa87Signer {
    #[verifier::type_invariant]
    spec fn inv(&self) -> bool {
        &&& self.secret_key@.len() == SK_LEN
        &&& spec_generated_key(self.secret_key@)
        &&& self.public_key.algorithm == Algorithm::MlDsa87
        &&& self.public_key.bytes@.len() == PK_LEN
        &&& spec_key_decodes(self.public_key.bytes@)
        &&& self.public_key.bytes@ == spec_public_of(self.secret_key@)
    }

    /// Generate a fresh ML-DSA-87 keypair from OS randomness.
    pub fn generate() -> (r: Result<MlDsa87Signer, CryptoError>)
        ensures
            r matches Err(e) ==> e is Signing,
    {
        match keygen() {
            Ok((sk, pk)) => Ok(MlDsa87Signer {
                secret_key: sk,
                public_key: PublicKey { algorithm: Algorithm::MlDsa87, bytes: pk },
            }),
            Err(e) => Err(CryptoError::Signing(e)),
        }
    }
}

impl Signer for MlDsa87Signer {
    open spec fn spec_algorithm(&self) -> Algorithm {
        Algorithm::MlDsa87
    }

    closed spec fn spec_public_key_bytes(&self) -> Seq<u8> {
        self.public_key.bytes@
    }

    open spec fn spec_verifies_own(&self) -> bool {
        true
    }

    /// Signing draws OS randomness, which may fail.
    open spec fn spec_always_signs(&self) -> bool {
        false
    }

    open spec fn spec_max_signature_len(&self) -> nat {
        SIG_LEN as nat
    }

    fn algorithm(&self) -> (a: Algorithm) {
        Algorithm::MlDsa87
    }

    fn public_key(&self) -> (pk: PublicKey) {
        proof { use_type_invariant(self); }
        self.public_key.copy()
    }

    /// Signs with fresh randomness; the signature always verifies under this
    /// signer's public key.
    fn sign(&self, payload: &[u8]) -> (r: Result<Signature, CryptoError>)
        ensures
            r matches Err(e) ==> e is Signing,
    {
        proof { use_type_invariant(self); }
        match sign_with(self.secret_key.as_slice(), payload) {
            Ok(bytes) => Ok(Signature { algorithm: Algorithm::MlDsa87, bytes }),
            Err(e) => Err(CryptoError::Signing(e)),
        }
    }
}

} // verus!
