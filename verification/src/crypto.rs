//! Signature-agility layer: algorithm tags, tagged keys and signatures, and the
//! fail-closed dispatching verifier.
use vstd::prelude::*;
use vstd::string::StringExecFns;

use crate::hashing::bytes_eq;
use crate::{ed25519, hybrid, mldsa};

verus! {

/// Signature algorithms this library supports.
#[derive(Debug, Clone, Copy, PartialEq, Eq, Hash, Structural)]
pub enum Algorithm {
    /// Ed25519 (RFC 8032). Classical default.
    Ed25519,
    /// ML-DSA-87 (FIPS-204). Post-quantum, lattice-based.
    MlDsa87,
    /// Classical + post-quantum signature over the same payload; both must
    /// verify. The two components are framed inside the tagged `bytes`.
    Hybrid,
}

/// Opaque public key bytes tagged with the algorithm they belong to.
#[derive(Debug, Clone, PartialEq, Eq, Hash)]
pub struct PublicKey {
    pub algorithm: Algorithm,
    pub bytes: Vec<u8>,
}

/// Opaque signature bytes tagged with the algorithm that produced them.
#[derive(Debug, Clone, PartialEq, Eq)]
pub struct Signature {
    pub algorithm: Algorithm,
    pub bytes: Vec<u8>,
}

/// Errors from signing / verification. An `Err` means verification could not
/// be attempted; `Ok(false)` from [`verify_signature`] means it ran and the
/// signature is invalid.
#[derive(Debug, Clone, Copy, PartialEq, Eq)]
pub enum CryptoError {
    /// The algorithm is not supported in this position (a hybrid component).
    UnsupportedAlgorithm(Algorithm),
    /// The signature's algorithm tag disagrees with the public key's tag.
    AlgorithmMismatch { signature: Algorithm, public_key: Algorithm },
    /// The public key bytes are the wrong length or otherwise unparseable.
    MalformedKey(Algorithm),
    /// The signature bytes are the wrong length or otherwise unparseable.
    MalformedSignature(Algorithm),
    /// A hybrid signature/key's length-prefixed framing could not be decoded.
    MalformedFraming(&'static str),
    /// Key generation or signing failed inside the underlying scheme.
    Signing(&'static str),
}

/// The name an algorithm is printed under.
pub open spec fn spec_algorithm_name(a: Algorithm) -> Seq<char> {
    match a {
        Algorithm::Ed25519 => "Ed25519"@,
        Algorithm::MlDsa87 => "MlDsa87"@,
        Algorithm::Hybrid => "Hybrid"@,
    }
}

/// The human-readable description of an error.
pub open spec fn spec_error_message(e: CryptoError) -> Seq<char> {
    match e {
        CryptoError::UnsupportedAlgorithm(a) => "unsupported algorithm: "@ + spec_algorithm_name(a),
        CryptoError::AlgorithmMismatch { signature, public_key } => "algorithm mismatch: signature is "@
            + spec_algorithm_name(signature) + " but public key is "@ + spec_algorithm_name(public_key),
        CryptoError::MalformedKey(a) => "malformed public key for "@ + spec_algorithm_name(a),
        CryptoError::MalformedSignature(a) => "malformed signature for "@ + spec_algorithm_name(a),
        CryptoError::MalformedFraming(m) => "malformed hybrid framing: "@ + m@,
        CryptoError::Signing(m) => "signing failed: "@ + m@,
    }
}

impl Algorithm {
    /// The name this algorithm is printed under.
    pub fn name(&self) -> (r: &'static str)
        ensures
            r@ == spec_algorithm_name(*self),
    {
        match self {
            Algorithm::Ed25519 => "Ed25519",
            Algorithm::MlDsa87 => "MlDsa87",
            Algorithm::Hybrid => "Hybrid",
        }
    }
}

impl CryptoError {
    /// The human-readable description of this error.
    pub fn message(&self) -> (r: String)
        ensures
            r@ == spec_error_message(*self),
    {
        let mut s = String::new();
        match self {
            CryptoError::UnsupportedAlgorithm(a) => {
                s.append("unsupported algorithm: ");
                s.append(a.name());
            },
            CryptoError::AlgorithmMismatch { signature, public_key } => {
                s.append("algorithm mismatch: signature is ");
                s.append(signature.name());
                s.append(" but public key is ");
                s.append(public_key.name());
            },
            CryptoError::MalformedKey(a) => {
                s.append("malformed public key for ");
                s.append(a.name());
            },
            CryptoError::MalformedSignature(a) => {
                s.append("malformed signature for ");
                s.append(a.name());
            },
            CryptoError::MalformedFraming(m) => {
                s.append("malformed hybrid framing: ");
                s.append(m);
            },
            CryptoError::Signing(m) => {
                s.append("signing failed: ");
                s.append(m);
            },
        }
        s
    }
}

impl PublicKey {
    /// Whether two keys are the same key: same algorithm and same bytes.
    pub(crate) fn same_key(&self, other: &PublicKey) -> (r: bool)
        ensures
            r == (self.algorithm == other.algorithm && self.bytes@ == other.bytes@),
    {
        self.algorithm == other.algorithm && bytes_eq(self.bytes.as_slice(), other.bytes.as_slice())
    }

    /// A copy of this key (same algorithm, same bytes).
    pub(crate) fn copy(&self) -> (r: PublicKey)
        ensures
            r.algorithm == self.algorithm,
            r.bytes@ == self.bytes@,
    {
        PublicKey { algorithm: self.algorithm, bytes: vstd::slice::slice_to_vec(self.bytes.as_slice()) }
    }
}

/// Anything that can produce a [`Signature`] over a payload. Each signature
/// scheme has one; the hybrid signer composes two.
pub trait Signer {
    /// The algorithm this signer signs under.
    spec fn spec_algorithm(&self) -> Algorithm;

    /// The bytes of the public key that checks this signer's signatures.
    spec fn spec_public_key_bytes(&self) -> Seq<u8>;

    /// The algorithm this signer signs under.
    fn algorithm(&self) -> (a: Algorithm)
        ensures
            a == self.spec_algorithm();

    /// The public key that [`verify_signature`] must be given to check the
    /// signatures this signer produces.
    fn public_key(&self) -> (pk: PublicKey)
        ensures
            pk.algorithm == self.spec_algorithm(),
            pk.bytes@ == self.spec_public_key_bytes();

    /// Whether every signature this signer produces is known to verify under
    /// its own public key.
    spec fn spec_verifies_own(&self) -> bool;

    /// Whether [`Signer::sign`] succeeds on every payload (it draws on nothing
    /// that can fail, such as OS randomness).
    spec fn spec_always_signs(&self) -> bool;

    /// An upper bound on the length of every signature this signer produces.
    spec fn spec_max_signature_len(&self) -> nat;

    /// Sign `payload` and return a [`Signature`] tagged with this signer's
    /// algorithm, no longer than [`Signer::spec_max_signature_len`]. Where
    /// [`Signer::spec_always_signs`] holds it succeeds; where
    /// [`Signer::spec_verifies_own`] holds, the signature verifies over
    /// `payload` under this signer's public key.
    fn sign(&self, payload: &[u8]) -> (r: Result<Signature, CryptoError>)
        ensures
            r matches Ok(sig) ==> sig.algorithm == self.spec_algorithm(),
            r matches Ok(sig) ==> sig.bytes@.len() <= self.spec_max_signature_len(),
            self.spec_always_signs() ==> r is Ok,
            r matches Ok(sig) ==> (self.spec_verifies_own() ==> spec_verify_signature(
                payload@,
                sig.algorithm,
                sig.bytes@,
                self.spec_algorithm(),
                self.spec_public_key_bytes(),
            ) == Ok::<bool, CryptoError>(true));
}

/// Signing then verifying round-trips: every signature a signer returns carries
/// the signer's algorithm, and where the signer verifies its own signatures
/// (every Ed25519 and ML-DSA-87 signer, and a hybrid of two such) it verifies
/// over the same payload under the signer's public key.
pub proof fn lemma_sign_then_verify<S: Signer + ?Sized>(signer: &S, payload: &[u8], sig: Signature)
    requires
        call_ensures(S::sign, (signer, payload), Ok::<Signature, CryptoError>(sig)),
    ensures
        sig.algorithm == signer.spec_algorithm(),
        signer.spec_verifies_own() ==> spec_verify_signature(
            payload@,
            sig.algorithm,
            sig.bytes@,
            signer.spec_algorithm(),
            signer.spec_public_key_bytes(),
        ) == Ok::<bool, CryptoError>(true),
{
}

/// Verification of a single-scheme (non-hybrid) signature.
pub open spec fn spec_verify_component(alg: Algorithm, payload: Seq<u8>, sig: Seq<u8>, pk: Seq<u8>) -> Result<
    bool,
    CryptoError,
> {
    match alg {
        Algorithm::Ed25519 => ed25519::spec_verify(payload, sig, pk),
        Algorithm::MlDsa87 => mldsa::spec_verify(payload, sig, pk),
        Algorithm::Hybrid => Err(CryptoError::UnsupportedAlgorithm(Algorithm::Hybrid)),
    }
}

/// What [`verify_signature`] returns: a tag mismatch first, then the
/// algorithm's own verification.
pub open spec fn spec_verify_signature(
    payload: Seq<u8>,
    sig_alg: Algorithm,
    sig: Seq<u8>,
    key_alg: Algorithm,
    pk: Seq<u8>,
) -> Result<bool, CryptoError> {
    if sig_alg != key_alg {
        Err(CryptoError::AlgorithmMismatch { signature: sig_alg, public_key: key_alg })
    } else if sig_alg == Algorithm::Hybrid {
        hybrid::spec_verify(payload, sig, pk)
    } else {
        spec_verify_component(sig_alg, payload, sig, pk)
    }
}

/// Verify a single-scheme signature under the non-hybrid algorithm `alg`.
pub(crate) fn verify_component(alg: Algorithm, payload: &[u8], sig_bytes: &[u8], pubkey_bytes: &[u8]) -> (r: Result<bool, CryptoError>)
    requires
        alg != Algorithm::Hybrid,
    ensures
        r == spec_verify_component(alg, payload@, sig_bytes@, pubkey_bytes@),
{
    match alg {
        Algorithm::Ed25519 => ed25519::verify(payload, sig_bytes, pubkey_bytes),
        _ => mldsa::verify(payload, sig_bytes, pubkey_bytes),
    }
}

/// Verify `signature` over `payload` under `public_key`, dispatching on the
/// algorithm tag. `Ok(true)`: valid; `Ok(false)`: verification ran and the
/// signature is invalid (for a hybrid, if either component is); `Err`: the tags
/// disagree or the bytes are malformed — fail closed.
pub fn verify_signature(payload: &[u8], signature: &Signature, public_key: &PublicKey) -> (r: Result<bool, CryptoError>)
    ensures
        signature.algorithm != public_key.algorithm ==> r == Err::<bool, CryptoError>(CryptoError::AlgorithmMismatch {
            signature: signature.algorithm,
            public_key: public_key.algorithm,
        }),
        r == spec_verify_signature(
            payload@,
            signature.algorithm,
            signature.bytes@,
            public_key.algorithm,
            public_key.bytes@,
        ),
{
    if signature.algorithm != public_key.algorithm {
        return Err(CryptoError::AlgorithmMismatch {
            signature: signature.algorithm,
            public_key: public_key.algorithm,
        });
    }
    match signature.algorithm {
        Algorithm::Ed25519 => ed25519::verify(payload, signature.bytes.as_slice(), public_key.bytes.as_slice()),
        Algorithm::MlDsa87 => mldsa::verify(payload, signature.bytes.as_slice(), public_key.bytes.as_slice()),
        Algorithm::Hybrid => hybrid::verify(payload, signature.bytes.as_slice(), public_key.bytes.as_slice()),
    }
}

} // verus!
