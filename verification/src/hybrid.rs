//! Hybrid (classical + post-quantum) signatures: two component signatures over
//! the same payload, both of which must verify.
//!
//! Framing: exactly two components, concatenated, each
//! `tag: u8 ‖ len: u32 (big-endian) ‖ payload (len bytes)`. Tag `0` is Ed25519,
//! `1` is ML-DSA-87; there is no tag for a hybrid, so hybrids cannot nest.
//! Component 0 is the classical signer, component 1 the post-quantum one.
use vstd::prelude::*;

use crate::crypto::{spec_verify_component, verify_component, Algorithm, CryptoError, PublicKey, Signature, Signer};
use crate::hashing::append_bytes;

verus! {

const TAG_ED25519: u8 = 0;
const TAG_MLDSA87: u8 = 1;

/// The 1-byte component tag of an algorithm; `Hybrid` has none.
pub open spec fn spec_algorithm_tag(a: Algorithm) -> Option<u8> {
    match a {
        Algorithm::Ed25519 => Some(0u8),
        Algorithm::MlDsa87 => Some(1u8),
        Algorithm::Hybrid => None,
    }
}

/// The algorithm a component tag names, if any.
pub open spec fn spec_tag_algorithm(t: u8) -> Option<Algorithm> {
    if t == 0u8 {
        Some(Algorithm::Ed25519)
    } else if t == 1u8 {
        Some(Algorithm::MlDsa87)
    } else {
        None
    }
}

/// Big-endian bytes of a 32-bit length.
pub open spec fn spec_be32(n: u32) -> Seq<u8> {
    seq![(n >> 24u32) as u8, (n >> 16u32) as u8, (n >> 8u32) as u8, n as u8]
}

/// The 32-bit big-endian number in `s[i..i+4]`.
pub open spec fn spec_read_be32(s: Seq<u8>, i: int) -> u32 {
    ((s[i] as u32) << 24u32) | ((s[i + 1] as u32) << 16u32) | ((s[i + 2] as u32) << 8u32) | (s[i + 3] as u32)
}

/// Why framing or unframing failed.
pub enum FramingFault {
    /// An algorithm with no component tag (a hybrid inside a hybrid).
    Unsupported,
    /// A component longer than a 32-bit length can describe.
    TooLarge,
    /// Fewer than 5 bytes where a component header should be.
    TruncatedHeader,
    /// A tag byte that names no algorithm.
    UnknownTag,
    /// A length whose end offset does not fit the address space.
    LengthOverflow,
    /// A length that runs past the end of the input.
    TruncatedPayload,
    /// Bytes left over after the second component.
    TrailingBytes,
}

/// One framed component, or why it cannot be framed.
pub open spec fn spec_encode_component(a: Algorithm, payload: Seq<u8>) -> Result<Seq<u8>, FramingFault> {
    match spec_algorithm_tag(a) {
        None => Err(FramingFault::Unsupported),
        Some(t) => if payload.len() > 0xFFFF_FFFF {
            Err(FramingFault::TooLarge)
        } else {
            Ok(seq![t] + spec_be32(payload.len() as u32) + payload)
        },
    }
}

/// Two framed components concatenated, or why they cannot be framed (the
/// first component's fault wins).
pub open spec fn spec_frame_two(a0: Algorithm, p0: Seq<u8>, a1: Algorithm, p1: Seq<u8>) -> Result<Seq<u8>, FramingFault> {
    match spec_encode_component(a0, p0) {
        Err(e) => Err(e),
        Ok(c0) => match spec_encode_component(a1, p1) {
            Err(e) => Err(e),
            Ok(c1) => Ok(c0 + c1),
        },
    }
}

/// Read one framed component from the front of `input`: its algorithm, its
/// payload, and the unconsumed remainder.
pub open spec fn spec_read_component(input: Seq<u8>) -> Result<(Algorithm, Seq<u8>, Seq<u8>), FramingFault> {
    if input.len() < 5 {
        Err(FramingFault::TruncatedHeader)
    } else {
        match spec_tag_algorithm(input[0]) {
            None => Err(FramingFault::UnknownTag),
            Some(a) => {
                let end = 5 + spec_read_be32(input, 1);
                if end > usize::MAX {
                    Err(FramingFault::LengthOverflow)
                } else if end > input.len() {
                    Err(FramingFault::TruncatedPayload)
                } else {
                    Ok((a, input.subrange(5, end), input.subrange(end, input.len() as int)))
                }
            },
        }
    }
}

/// Decode exactly two framed components, rejecting trailing bytes.
pub open spec fn spec_decode_two(input: Seq<u8>) -> Result<(Algorithm, Seq<u8>, Algorithm, Seq<u8>), FramingFault> {
    match spec_read_component(input) {
        Err(e) => Err(e),
        Ok((a0, p0, rest0)) => match spec_read_component(rest0) {
            Err(e) => Err(e),
            Ok((a1, p1, rest1)) => if rest1.len() != 0 {
                Err(FramingFault::TrailingBytes)
            } else {
                Ok((a0, p0, a1, p1))
            },
        },
    }
}

/// The error value each framing fault is reported as.
pub open spec fn fault_error(f: FramingFault) -> CryptoError {
    match f {
        FramingFault::Unsupported => CryptoError::UnsupportedAlgorithm(Algorithm::Hybrid),
        FramingFault::TooLarge => CryptoError::MalformedFraming("component too large"),
        FramingFault::TruncatedHeader => CryptoError::MalformedFraming("truncated component header"),
        FramingFault::UnknownTag => CryptoError::MalformedFraming("unknown component algorithm tag"),
        FramingFault::LengthOverflow => CryptoError::MalformedFraming("component length overflow"),
        FramingFault::TruncatedPayload => CryptoError::MalformedFraming("truncated component payload"),
        FramingFault::TrailingBytes => CryptoError::MalformedFraming("trailing bytes after two components"),
    }
}

/// Map an algorithm to its 1-byte component tag. `Hybrid` has no tag.
fn algorithm_tag(algorithm: &Algorithm) -> (r: Result<u8, CryptoError>)
    ensures
        match spec_algorithm_tag(*algorithm) {
            Some(t) => r == Ok::<u8, CryptoError>(t),
            None => r == Err::<u8, CryptoError>(fault_error(FramingFault::Unsupported)),
        },
{
    match algorithm {
        Algorithm::Ed25519 => Ok(TAG_ED25519),
        Algorithm::MlDsa87 => Ok(TAG_MLDSA87),
        Algorithm::Hybrid => Err(CryptoError::UnsupportedAlgorithm(Algorithm::Hybrid)),
    }
}

/// Map a 1-byte component tag back to its algorithm.
fn tag_algorithm(tag: u8) -> (r: Result<Algorithm, CryptoError>)
    ensures
        match spec_tag_algorithm(tag) {
            Some(a) => r == Ok::<Algorithm, CryptoError>(a),
            None => r == Err::<Algorithm, CryptoError>(fault_error(FramingFault::UnknownTag)),
        },
{
    if tag == TAG_ED25519 {
        Ok(Algorithm::Ed25519)
    } else if tag == TAG_MLDSA87 {
        Ok(Algorithm::MlDsa87)
    } else {
        Err(CryptoError::MalformedFraming("unknown component algorithm tag"))
    }
}

/// One decoded component: its algorithm and a borrow of its payload bytes.
pub type Component<'a> = (Algorithm, &'a [u8]);

/// Frame two components (tag + big-endian u32 length + payload, concatenated).
pub fn frame_two(alg0: &Algorithm, payload0: &[u8], alg1: &Algorithm, payload1: &[u8]) -> (r: Result<Vec<u8>, CryptoError>)
    ensures
        match spec_frame_two(*alg0, payload0@, *alg1, payload1@) {
            Ok(b) => r matches Ok(v) && v@ == b,
            Err(f) => r == Err::<Vec<u8>, CryptoError>(fault_error(f)),
        },
{
    let mut out: Vec<u8> = Vec::new();
    let r0 = encode_component(&mut out, alg0, payload0);
    if let Err(e) = r0 {
        return Err(e);
    }
    let r1 = encode_component(&mut out, alg1, payload1);
    if let Err(e) = r1 {
        return Err(e);
    }
    Ok(out)
}

fn encode_component(out: &mut Vec<u8>, algorithm: &Algorithm, payload: &[u8]) -> (r: Result<(), CryptoError>)
    ensures
        match spec_encode_component(*algorithm, payload@) {
            Ok(c) => r is Ok && final(out)@ == old(out)@ + c,
            Err(f) => r == Err::<(), CryptoError>(fault_error(f)),
        },
{
    let tag = match algorithm_tag(algorithm) {
        Ok(t) => t,
        Err(e) => return Err(e),
    };
    out.push(tag);
    if payload.len() > 0xFFFF_FFFF {
        return Err(CryptoError::MalformedFraming("component too large"));
    }
    let len = payload.len() as u32;
    out.push((len >> 24) as u8);
    out.push((len >> 16) as u8);
    out.push((len >> 8) as u8);
    out.push(len as u8);
    append_bytes(out, payload);
    Ok(())
}

/// Decode exactly two framed components, rejecting trailing bytes.
pub fn decode_two(input: &[u8]) -> (r: Result<[Component<'_>; 2], CryptoError>)
    ensures
        match spec_decode_two(input@) {
            Ok((a0, p0, a1, p1)) => r matches Ok(c) && c[0].0 == a0 && c[0].1@ == p0 && c[1].0 == a1 && c[1].1@ == p1,
            Err(f) => r == Err::<[Component<'_>; 2], CryptoError>(fault_error(f)),
        },
{
    let (comp0, rest0) = match read_component(input) {
        Ok(x) => x,
        Err(e) => return Err(e),
    };
    let (comp1, rest1) = match read_component(rest0) {
        Ok(x) => x,
        Err(e) => return Err(e),
    };
    if rest1.len() != 0 {
        return Err(CryptoError::MalformedFraming("trailing bytes after two components"));
    }
    Ok([comp0, comp1])
}

/// Read one framed component, returning it and the unconsumed remainder.
pub fn read_component(input: &[u8]) -> (r: Result<(Component<'_>, &[u8]), CryptoError>)
    ensures
        match spec_read_component(input@) {
            Ok((a, p, rest)) => r matches Ok((c, rest2)) && c.0 == a && c.1@ == p && rest2@ == rest,
            Err(f) => r == Err::<(Component<'_>, &[u8]), CryptoError>(fault_error(f)),
        },
{
    if input.len() < 5 {
        return Err(CryptoError::MalformedFraming("truncated component header"));
    }
    let algorithm = match tag_algorithm(input[0]) {
        Ok(a) => a,
        Err(e) => return Err(e),
    };
    let len32: u32 = ((input[1] as u32) << 24) | ((input[2] as u32) << 16) | ((input[3] as u32) << 8) | (input[4] as u32);
    let len = len32 as usize;
    let start: usize = 5;
    let end = match start.checked_add(len) {
        Some(e) => e,
        None => return Err(CryptoError::MalformedFraming("component length overflow")),
    };
    if end > input.len() {
        return Err(CryptoError::MalformedFraming("truncated component payload"));
    }
    Ok(((algorithm, vstd::slice::slice_subrange(input, start, end)), vstd::slice::slice_subrange(input, end, input.len())))
}

proof fn lemma_be32_roundtrip(n: u32)
    ensures
        (((((n >> 24u32) as u8) as u32) << 24u32) | ((((n >> 16u32) as u8) as u32) << 16u32)
            | ((((n >> 8u32) as u8) as u32) << 8u32) | ((n as u8) as u32)) == n,
{
    assert((((((n >> 24u32) as u8) as u32) << 24u32) | ((((n >> 16u32) as u8) as u32) << 16u32)
        | ((((n >> 8u32) as u8) as u32) << 8u32) | ((n as u8) as u32)) == n) by (bit_vector);
}

proof fn lemma_read_encoded(c: Seq<u8>, rest: Seq<u8>, a: Algorithm, p: Seq<u8>)
    requires
        spec_encode_component(a, p) == Ok::<Seq<u8>, FramingFault>(c),
        c.len() <= usize::MAX,
    ensures
        spec_read_component(c + rest) == Ok::<(Algorithm, Seq<u8>, Seq<u8>), FramingFault>((a, p, rest)),
{
    let input = c + rest;
    let n = p.len() as u32;
    lemma_be32_roundtrip(n);
    assert(input.subrange(5, 5 + n) =~= p);
    assert(input.subrange(5 + n, input.len() as int) =~= rest);
}

/// Framing round-trips: two framed components take two 5-byte headers plus
/// their payloads, and decoding them gives back exactly the algorithms and
/// payloads that were framed, in order; any byte after them is refused as
/// trailing. (Each framed component must fit the address space.)
pub proof fn lemma_frame_decode_roundtrip(a0: Algorithm, p0: Seq<u8>, a1: Algorithm, p1: Seq<u8>)
    requires
        spec_frame_two(a0, p0, a1, p1) is Ok,
        p0.len() + 5 <= usize::MAX,
        p1.len() + 5 <= usize::MAX,
    ensures
        spec_frame_two(a0, p0, a1, p1)->Ok_0.len() == 10 + p0.len() + p1.len(),
        spec_decode_two(spec_frame_two(a0, p0, a1, p1)->Ok_0) == Ok::<(Algorithm, Seq<u8>, Algorithm, Seq<u8>), FramingFault>((a0, p0, a1, p1)),
        forall|t: Seq<u8>|
            t.len() > 0 ==> #[trigger] spec_decode_two(spec_frame_two(a0, p0, a1, p1)->Ok_0 + t)
                == Err::<(Algorithm, Seq<u8>, Algorithm, Seq<u8>), FramingFault>(FramingFault::TrailingBytes),
{
    let c0 = spec_encode_component(a0, p0)->Ok_0;
    let c1 = spec_encode_component(a1, p1)->Ok_0;
    lemma_read_encoded(c0, c1, a0, p0);
    lemma_read_encoded(c1, Seq::empty(), a1, p1);
    assert(c1 + Seq::<u8>::empty() =~= c1);
    assert forall|t: Seq<u8>| t.len() > 0 implies #[trigger] spec_decode_two(c0 + c1 + t)
        == Err::<(Algorithm, Seq<u8>, Algorithm, Seq<u8>), FramingFault>(FramingFault::TrailingBytes) by {
        assert(c0 + c1 + t =~= c0 + (c1 + t));
        lemma_read_encoded(c0, c1 + t, a0, p0);
        lemma_read_encoded(c1, t, a1, p1);
    }
}

/// Hybrids cannot nest: framing a hybrid as either component is refused.
pub proof fn lemma_no_nesting(a0: Algorithm, p0: Seq<u8>, a1: Algorithm, p1: Seq<u8>)
    requires
        a0 == Algorithm::Hybrid || (a1 == Algorithm::Hybrid && spec_encode_component(a0, p0) is Ok),
    ensures
        spec_frame_two(a0, p0, a1, p1) == Err::<Seq<u8>, FramingFault>(FramingFault::Unsupported),
{
}

/// What one component's check gives: its signature tag must equal its key
/// tag, then the component scheme verifies.
pub open spec fn spec_check_component(payload: Seq<u8>, sa: Algorithm, sp: Seq<u8>, ka: Algorithm, kp: Seq<u8>) -> Result<
    bool,
    CryptoError,
> {
    if sa != ka {
        Err(CryptoError::AlgorithmMismatch { signature: sa, public_key: ka })
    } else {
        spec_verify_component(sa, payload, sp, kp)
    }
}

/// What verifying a hybrid signature gives: both framings must decode (the
/// signature's first); component 0 is checked, then component 1; the first
/// error wins, and the signature is valid only if both components are.
pub open spec fn spec_verify(payload: Seq<u8>, sig: Seq<u8>, pk: Seq<u8>) -> Result<bool, CryptoError> {
    match spec_decode_two(sig) {
        Err(f) => Err(fault_error(f)),
        Ok((sa0, sp0, sa1, sp1)) => match spec_decode_two(pk) {
            Err(f) => Err(fault_error(f)),
            Ok((ka0, kp0, ka1, kp1)) => match spec_check_component(payload, sa0, sp0, ka0, kp0) {
                Ok(b0) => match spec_check_component(payload, sa1, sp1, ka1, kp1) {
                    Ok(b1) => Ok(b0 && b1),
                    Err(e) => Err(e),
                },
                Err(e) => Err(e),
            },
        },
    }
}

fn check_component(payload: &[u8], sig: &Component<'_>, key: &Component<'_>) -> (r: Result<bool, CryptoError>)
    requires
        sig.0 != Algorithm::Hybrid,
    ensures
        r == spec_check_component(payload@, sig.0, sig.1@, key.0, key.1@),
{
    if sig.0 != key.0 {
        return Err(CryptoError::AlgorithmMismatch { signature: sig.0, public_key: key.0 });
    }
    verify_component(sig.0, payload, sig.1, key.1)
}

/// Verify a hybrid signature: both components must verify. Structural
/// problems (bad framing, a component whose signature tag disagrees with its
/// key tag) are `Err`; a well-framed hybrid with an invalid component is
/// `Ok(false)`.
pub fn verify(payload: &[u8], sig_bytes: &[u8], pubkey_bytes: &[u8]) -> (r: Result<bool, CryptoError>)
    ensures
        r == spec_verify(payload@, sig_bytes@, pubkey_bytes@),
{
    let sig_components = match decode_two(sig_bytes) {
        Ok(c) => c,
        Err(e) => return Err(e),
    };
    let key_components = match decode_two(pubkey_bytes) {
        Ok(c) => c,
        Err(e) => return Err(e),
    };
    let first = check_component(payload, &sig_components[0], &key_components[0]);
    let v0 = match first {
        Ok(b) => b,
        Err(e) => return Err(e),
    };
    let second = check_component(payload, &sig_components[1], &key_components[1]);
    let v1 = match second {
        Ok(b) => b,
        Err(e) => return Err(e),
    };
    Ok(v0 && v1)
}

/// A signer that emits a signature carrying two component signatures over the
/// same payload; both must later verify. The components are boxed signers of
/// any kind, by default `dyn Signer`.
pub struct HybridSigner<C: Signer + ?Sized = dyn Signer, Q: Signer + ?Sized = dyn Signer> {
    classical: Box<C>,
    post_quantum: Box<Q>,
    public_key: PublicKey,
}

impl<C: Signer + ?Sized, Q: Signer + ?Sized> HybridSigner<C, Q> {
    /// The public key is the framing of the two component public keys.
    #[verifier::type_invariant]
    spec fn inv(&self) -> bool {
        &&& self.public_key.algorithm == Algorithm::Hybrid
        &&& spec_frame_two(
            self.classical.spec_algorithm(),
            self.classical.spec_public_key_bytes(),
            self.post_quantum.spec_algorithm(),
            self.post_quantum.spec_public_key_bytes(),
        ) == Ok::<Seq<u8>, FramingFault>(self.public_key.bytes@)
    }

    /// The classical (component 0) signer.
    pub closed spec fn spec_classical(&self) -> &C {
        &*self.classical
    }

    /// The post-quantum (component 1) signer.
    pub closed spec fn spec_post_quantum(&self) -> &Q {
        &*self.post_quantum
    }

    /// Compose two inner signers: `classical` becomes component 0 and
    /// `post_quantum` component 1. Errors if either inner signer is itself a
    /// hybrid (hybrids cannot nest).
    pub fn new(classical: Box<C>, post_quantum: Box<Q>) -> (r: Result<HybridSigner<C, Q>, CryptoError>)
        ensures
            match spec_frame_two(
                classical.spec_algorithm(),
                classical.spec_public_key_bytes(),
                post_quantum.spec_algorithm(),
                post_quantum.spec_public_key_bytes(),
            ) {
                Ok(b) => r matches Ok(h) && h.spec_classical() == &*classical && h.spec_post_quantum()
                    == &*post_quantum && h.spec_public_key_bytes() == b && (h.spec_verifies_own()
                    <==> classical.spec_verifies_own() && post_quantum.spec_verifies_own()) && (h.spec_always_signs()
                    <==> classical.spec_always_signs() && post_quantum.spec_always_signs()
                    && classical.spec_max_signature_len() <= 0xFFFF_FFFF
                    && post_quantum.spec_max_signature_len() <= 0xFFFF_FFFF) && h.spec_max_signature_len() == 10
                    + classical.spec_max_signature_len() + post_quantum.spec_max_signature_len(),
                Err(f) => r matches Err(e) && e == fault_error(f),
            },
    {
        let c_pk = classical.public_key();
        let q_pk = post_quantum.public_key();
        let bytes = match frame_two(&c_pk.algorithm, c_pk.bytes.as_slice(), &q_pk.algorithm, q_pk.bytes.as_slice()) {
            Ok(b) => b,
            Err(e) => return Err(e),
        };
        Ok(HybridSigner { classical, post_quantum, public_key: PublicKey { algorithm: Algorithm::Hybrid, bytes } })
    }
}

/// Framing that succeeds has tagged component algorithms.
proof fn lemma_frame_keys_tagged(a0: Algorithm, p0: Seq<u8>, a1: Algorithm, p1: Seq<u8>)
    requires
        spec_frame_two(a0, p0, a1, p1) is Ok,
    ensures
        spec_algorithm_tag(a0) is Some,
        spec_algorithm_tag(a1) is Some,
{
}

/// Two tagged components of at most `2^32 - 1` bytes each always frame, into
/// two 5-byte headers plus the payloads.
proof fn lemma_frame_two_sized(a0: Algorithm, p0: Seq<u8>, a1: Algorithm, p1: Seq<u8>)
    ensures
        spec_algorithm_tag(a0) is Some && spec_algorithm_tag(a1) is Some && p0.len() <= 0xFFFF_FFFF
            && p1.len() <= 0xFFFF_FFFF ==> spec_frame_two(a0, p0, a1, p1) is Ok,
        spec_frame_two(a0, p0, a1, p1) matches Ok(b) ==> b.len() == 10 + p0.len() + p1.len(),
{
}

/// The hybrid signature bytes that two component signatures frame into, or
/// why they cannot be framed.
pub open spec fn spec_frame_signatures(c: Signature, q: Signature) -> Result<Seq<u8>, FramingFault> {
    spec_frame_two(c.algorithm, c.bytes@, q.algorithm, q.bytes@)
}

/// A component signer's own-signature guarantee, seen through the hybrid's
/// per-component check.
proof fn lemma_component_check(payload: Seq<u8>, a: Algorithm, sig: Seq<u8>, pk: Seq<u8>)
    requires
        spec_algorithm_tag(a) is Some,
        crate::crypto::spec_verify_signature(payload, a, sig, a, pk) == Ok::<bool, CryptoError>(true),
    ensures
        spec_check_component(payload, a, sig, a, pk) == Ok::<bool, CryptoError>(true),
{
}

impl<C: Signer + ?Sized, Q: Signer + ?Sized> Signer for HybridSigner<C, Q> {
    open spec fn spec_algorithm(&self) -> Algorithm {
        Algorithm::Hybrid
    }

    closed spec fn spec_public_key_bytes(&self) -> Seq<u8> {
        self.public_key.bytes@
    }

    /// Holds when both component signers' signatures verify under their keys.
    closed spec fn spec_verifies_own(&self) -> bool {
        self.classical.spec_verifies_own() && self.post_quantum.spec_verifies_own()
    }

    /// Holds when both component signers always sign, with signatures short
    /// enough for a 32-bit frame length.
    closed spec fn spec_always_signs(&self) -> bool {
        &&& self.classical.spec_always_signs()
        &&& self.post_quantum.spec_always_signs()
        &&& self.classical.spec_max_signature_len() <= 0xFFFF_FFFF
        &&& self.post_quantum.spec_max_signature_len() <= 0xFFFF_FFFF
    }

    /// Two 5-byte frame headers plus the two component signatures.
    closed spec fn spec_max_signature_len(&self) -> nat {
        10 + self.classical.spec_max_signature_len() + self.post_quantum.spec_max_signature_len()
    }

    fn algorithm(&self) -> (a: Algorithm) {
        Algorithm::Hybrid
    }

    fn public_key(&self) -> (pk: PublicKey) {
        PublicKey { algorithm: Algorithm::Hybrid, bytes: vstd::slice::slice_to_vec(self.public_key.bytes.as_slice()) }
    }

    /// The classical signer signs `payload`, then, if it succeeded, the
    /// post-quantum signer does; the two signatures are framed in that order.
    /// An inner signer's error is returned unchanged, and a signature too long
    /// to frame gives the framing error.
    fn sign(&self, payload: &[u8]) -> (r: Result<Signature, CryptoError>)
        ensures
            r matches Ok(sig) ==> exists|cs: Signature, qs: Signature|
                #![trigger call_ensures(C::sign, (self.spec_classical(), payload), Ok::<Signature, CryptoError>(cs)), call_ensures(Q::sign, (self.spec_post_quantum(), payload), Ok::<Signature, CryptoError>(qs))]
                call_ensures(C::sign, (self.spec_classical(), payload), Ok::<Signature, CryptoError>(cs))
                    && call_ensures(Q::sign, (self.spec_post_quantum(), payload), Ok::<Signature, CryptoError>(qs))
                    && spec_frame_signatures(cs, qs) == Ok::<Seq<u8>, FramingFault>(sig.bytes@),
            r matches Err(e) ==> {
                ||| call_ensures(C::sign, (self.spec_classical(), payload), Err::<Signature, CryptoError>(e))
                ||| exists|cs: Signature|
                    #[trigger] call_ensures(C::sign, (self.spec_classical(), payload), Ok::<Signature, CryptoError>(cs))
                        && call_ensures(Q::sign, (self.spec_post_quantum(), payload), Err::<Signature, CryptoError>(e))
                ||| exists|cs: Signature, qs: Signature|
                    #![trigger call_ensures(C::sign, (self.spec_classical(), payload), Ok::<Signature, CryptoError>(cs)), call_ensures(Q::sign, (self.spec_post_quantum(), payload), Ok::<Signature, CryptoError>(qs))]
                    call_ensures(C::sign, (self.spec_classical(), payload), Ok::<Signature, CryptoError>(cs))
                        && call_ensures(Q::sign, (self.spec_post_quantum(), payload), Ok::<Signature, CryptoError>(qs))
                        && (spec_frame_signatures(cs, qs) matches Err(f) && e == fault_error(f))
            },
    {
        proof { use_type_invariant(self); }
        let c_res = self.classical.sign(payload);
        let c_sig = match c_res {
            Ok(s) => s,
            Err(e) => return Err(e),
        };
        let q_res = self.post_quantum.sign(payload);
        let q_sig = match q_res {
            Ok(s) => s,
            Err(e) => return Err(e),
        };
        proof {
            lemma_frame_keys_tagged(
                self.classical.spec_algorithm(),
                self.classical.spec_public_key_bytes(),
                self.post_quantum.spec_algorithm(),
                self.post_quantum.spec_public_key_bytes(),
            );
            lemma_frame_two_sized(c_sig.algorithm, c_sig.bytes@, q_sig.algorithm, q_sig.bytes@);
        }
        let bytes = match frame_two(&c_sig.algorithm, c_sig.bytes.as_slice(), &q_sig.algorithm, q_sig.bytes.as_slice()) {
            Ok(b) => b,
            Err(e) => return Err(e),
        };
        proof {
            if self.spec_verifies_own() {
                let ca = self.classical.spec_algorithm();
                let qa = self.post_quantum.spec_algorithm();
                let cpk = self.classical.spec_public_key_bytes();
                let qpk = self.post_quantum.spec_public_key_bytes();
                lemma_frame_decode_roundtrip(ca, c_sig.bytes@, qa, q_sig.bytes@);
                lemma_frame_decode_roundtrip(ca, cpk, qa, qpk);
                lemma_component_check(payload@, ca, c_sig.bytes@, cpk);
                lemma_component_check(payload@, qa, q_sig.bytes@, qpk);
            }
        }
        Ok(Signature { algorithm: Algorithm::Hybrid, bytes })
    }
}

} // verus!
