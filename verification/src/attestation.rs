//! Independent completion attestation: a completion signed by someone other
//! than the executing agent — a counter-signing delegator or a third-party
//! attester — and the k-of-n aggregate of such attestations.
//!
//! An attestation binds the requested action digest, the delegation chain
//! digest, the observed outcome digest and a witness inclusion proof. Its
//! signature covers the canonical (RFC 8785) JSON array of every field but the
//! signature. The independence check (attester ≠ executor) and the signature
//! check live in [`CompletionAttestation::verify`]; an attestation is exactly
//! as strong as the attester's view of ground truth.
use vstd::prelude::*;
use vstd::string::StringSliceAdditionalSpecFns;
use vstd::utf8::encode_utf8;

use crate::chain::Principal;
use crate::crypto::{
    spec_algorithm_name, spec_error_message, spec_verify_signature, verify_signature, CryptoError, PublicKey,
    Signature, Signer,
};
use crate::hashing::{append_bytes, hash_eq};
use crate::json::{push_decimal, push_json_array, push_json_string, spec_decimal, spec_json_array, spec_json_string};
use crate::witness::{Digest, InclusionProof, PathStep};

verus! {

/// Which of the two independence flows an attestation represents. Both mean
/// "signed by someone other than the executing agent"; they differ in who.
#[derive(Debug, Clone, Copy, PartialEq, Eq, Structural)]
pub enum AttesterRole {
    /// The immediate delegator (one hop up the chain) counter-signs the
    /// executor's completion.
    CounterSigned,
    /// An external party not in the delegation chain attests.
    ThirdParty,
}

/// A completion signed by a party other than the executing agent.
#[derive(Debug, Clone, PartialEq, Eq)]
pub struct CompletionAttestation {
    /// Digest of the delegation chain the action ran under.
    pub chain_digest: Digest,
    /// Digest of what was requested.
    pub requested_action_digest: Digest,
    /// Digest of what the attester observed actually happened.
    pub outcome_digest: Digest,
    /// Witness Merkle root this attestation commits to.
    pub witnessed_root: Digest,
    /// Proof the action's receipt is included under `witnessed_root`.
    pub inclusion: InclusionProof,
    /// Who is attesting (must not be the executing agent).
    pub attester: Principal,
    pub attester_key: PublicKey,
    /// Which independence flow this attestation represents. Signed, so it
    /// cannot be relabelled after the fact.
    pub role: AttesterRole,
    pub signature: Signature,
}

/// Errors from checking an attestation.
#[derive(Debug, PartialEq, Eq)]
pub enum AttestationError {
    /// The completion was signed by the executing agent itself.
    NotIndependent,
    /// The attestation signature is invalid.
    SignatureInvalid,
    /// Verification could not be attempted; the crypto error's message.
    Crypto(String),
}

impl AttestationError {
    /// The error a crypto failure is reported as: its message, as a `Crypto`.
    pub fn from_crypto(e: CryptoError) -> (r: AttestationError)
        ensures
            r matches AttestationError::Crypto(m) && m@ == spec_error_message(e),
    {
        AttestationError::Crypto(e.message())
    }
}

// ---------------------------------------------------------------------------
// The signed payload: the RFC 8785 JSON array
// `[chain, requested, outcome, root, inclusion, attester, key, role]`.
// Object members appear in sorted key order; digests and key bytes are arrays
// of byte values; strings are escaped as JSON requires.
// ---------------------------------------------------------------------------

const LEAF_INDEX: &'static str = "{\"leaf_index\":";
const PATH: &'static str = ",\"path\":[";
const TREE_SIZE: &'static str = "],\"tree_size\":";
const SIBLING: &'static str = "{\"sibling\":";
const SIBLING_IS_LEFT: &'static str = ",\"sibling_is_left\":";
const DISPLAY_NAME: &'static str = "{\"display_name\":";
const ID: &'static str = ",\"id\":";
const ALGORITHM: &'static str = "{\"algorithm\":\"";
const BYTES: &'static str = "\",\"bytes\":";
const TRUE: &'static str = "true";
const FALSE: &'static str = "false";
const COUNTER_SIGNED: &'static str = "\"CounterSigned\"";
const THIRD_PARTY: &'static str = "\"ThirdParty\"";

spec fn bool_json(b: bool) -> Seq<u8> {
    if b {
        TRUE.spec_bytes()
    } else {
        FALSE.spec_bytes()
    }
}

spec fn step_json(s: PathStep) -> Seq<u8> {
    SIBLING.spec_bytes() + spec_json_array(s.sibling@) + SIBLING_IS_LEFT.spec_bytes() + bool_json(s.sibling_is_left)
        + seq![125u8]
}

spec fn steps_json(steps: Seq<PathStep>) -> Seq<u8>
    decreases steps.len(),
{
    if steps.len() == 0 {
        Seq::empty()
    } else if steps.len() == 1 {
        step_json(steps[0])
    } else {
        steps_json(steps.drop_last()) + seq![44u8] + step_json(steps.last())
    }
}

spec fn inclusion_json(p: InclusionProof) -> Seq<u8> {
    LEAF_INDEX.spec_bytes() + spec_decimal(p.leaf_index as nat) + PATH.spec_bytes() + steps_json(p.path@)
        + TREE_SIZE.spec_bytes() + spec_decimal(p.tree_size as nat) + seq![125u8]
}

spec fn principal_json(p: Principal) -> Seq<u8> {
    DISPLAY_NAME.spec_bytes() + spec_json_string(encode_utf8(p.display_name@)) + ID.spec_bytes()
        + spec_json_string(encode_utf8(p.id@)) + seq![125u8]
}

spec fn key_json(k: PublicKey) -> Seq<u8> {
    ALGORITHM.spec_bytes() + encode_utf8(spec_algorithm_name(k.algorithm)) + BYTES.spec_bytes()
        + spec_json_array(k.bytes@) + seq![125u8]
}

spec fn role_json(r: AttesterRole) -> Seq<u8> {
    match r {
        AttesterRole::CounterSigned => COUNTER_SIGNED.spec_bytes(),
        AttesterRole::ThirdParty => THIRD_PARTY.spec_bytes(),
    }
}

/// The canonical bytes an attestation's signature covers: everything but the
/// signature, as the RFC 8785 JSON array of the eight fields in order.
#[verifier::opaque]
pub closed spec fn spec_signing_payload(
    chain_digest: Digest,
    requested: Digest,
    outcome: Digest,
    witnessed_root: Digest,
    inclusion: InclusionProof,
    attester: Principal,
    attester_key: PublicKey,
    role: AttesterRole,
) -> Seq<u8> {
    seq![91u8] + spec_json_array(chain_digest@) + seq![44u8] + spec_json_array(requested@) + seq![44u8]
        + spec_json_array(outcome@) + seq![44u8] + spec_json_array(witnessed_root@) + seq![44u8]
        + inclusion_json(inclusion) + seq![44u8] + principal_json(attester) + seq![44u8] + key_json(attester_key)
        + seq![44u8] + role_json(role) + seq![93u8]
}

fn push_bool(out: &mut Vec<u8>, b: bool)
    ensures
        final(out)@ == old(out)@ + bool_json(b),
{
    if b {
        append_bytes(out, TRUE.as_bytes());
    } else {
        append_bytes(out, FALSE.as_bytes());
    }
}

fn push_step(out: &mut Vec<u8>, s: &PathStep)
    ensures
        final(out)@ == old(out)@ + step_json(*s),
{
    append_bytes(out, SIBLING.as_bytes());
    push_json_array(out, s.sibling.as_slice());
    append_bytes(out, SIBLING_IS_LEFT.as_bytes());
    push_bool(out, s.sibling_is_left);
    out.push(125);
}

fn push_inclusion(out: &mut Vec<u8>, p: &InclusionProof)
    ensures
        final(out)@ == old(out)@ + inclusion_json(*p),
{
    append_bytes(out, LEAF_INDEX.as_bytes());
    push_decimal(out, p.leaf_index as u64);
    append_bytes(out, PATH.as_bytes());
    let ghost start = out@;
    let mut i: usize = 0;
    while i < p.path.len()
        invariant
            i <= p.path@.len(),
            out@ == start + steps_json(p.path@.subrange(0, i as int)),
        decreases p.path@.len() - i,
    {
        if i > 0 {
            out.push(44);
        }
        push_step(out, &p.path[i]);
        i = i + 1;
        proof {
            let pre = p.path@.subrange(0, i as int);
            assert(pre.drop_last() =~= p.path@.subrange(0, i - 1));
        }
    }
    assert(p.path@.subrange(0, p.path@.len() as int) =~= p.path@);
    append_bytes(out, TREE_SIZE.as_bytes());
    push_decimal(out, p.tree_size as u64);
    out.push(125);
}

fn push_principal(out: &mut Vec<u8>, p: &Principal)
    ensures
        final(out)@ == old(out)@ + principal_json(*p),
{
    append_bytes(out, DISPLAY_NAME.as_bytes());
    push_json_string(out, p.display_name.as_str().as_bytes());
    append_bytes(out, ID.as_bytes());
    push_json_string(out, p.id.as_str().as_bytes());
    out.push(125);
}

fn push_key(out: &mut Vec<u8>, k: &PublicKey)
    ensures
        final(out)@ == old(out)@ + key_json(*k),
{
    append_bytes(out, ALGORITHM.as_bytes());
    append_bytes(out, k.algorithm.name().as_bytes());
    append_bytes(out, BYTES.as_bytes());
    push_json_array(out, k.bytes.as_slice());
    out.push(125);
}

fn push_role(out: &mut Vec<u8>, r: AttesterRole)
    ensures
        final(out)@ == old(out)@ + role_json(r),
{
    match r {
        AttesterRole::CounterSigned => append_bytes(out, COUNTER_SIGNED.as_bytes()),
        AttesterRole::ThirdParty => append_bytes(out, THIRD_PARTY.as_bytes()),
    }
}

/// The canonical bytes an attestation's signature covers.
fn signing_payload(
    chain_digest: &Digest,
    requested: &Digest,
    outcome: &Digest,
    witnessed_root: &Digest,
    inclusion: &InclusionProof,
    attester: &Principal,
    attester_key: &PublicKey,
    role: &AttesterRole,
) -> (r: Vec<u8>)
    ensures
        r@ == spec_signing_payload(
            *chain_digest,
            *requested,
            *outcome,
            *witnessed_root,
            *inclusion,
            *attester,
            *attester_key,
            *role,
        ),
{
    let mut out: Vec<u8> = Vec::new();
    out.push(91);
    push_json_array(&mut out, chain_digest.as_slice());
    out.push(44);
    push_json_array(&mut out, requested.as_slice());
    out.push(44);
    push_json_array(&mut out, outcome.as_slice());
    out.push(44);
    push_json_array(&mut out, witnessed_root.as_slice());
    out.push(44);
    push_inclusion(&mut out, inclusion);
    out.push(44);
    push_principal(&mut out, attester);
    out.push(44);
    push_key(&mut out, attester_key);
    out.push(44);
    push_role(&mut out, *role);
    out.push(93);
    reveal(spec_signing_payload);
    assert(out@ =~= spec_signing_payload(
        *chain_digest,
        *requested,
        *outcome,
        *witnessed_root,
        *inclusion,
        *attester,
        *attester_key,
        *role,
    ));
    out
}

// ---------------------------------------------------------------------------
// One attestation
// ---------------------------------------------------------------------------

/// Whether two keys are the same key (same algorithm, same bytes).
pub open spec fn same_key(a: PublicKey, b: PublicKey) -> bool {
    a.algorithm == b.algorithm && a.bytes@ == b.bytes@
}

impl CompletionAttestation {
    /// The bytes this attestation's signature must cover.
    pub open spec fn spec_payload(&self) -> Seq<u8> {
        spec_signing_payload(
            self.chain_digest,
            self.requested_action_digest,
            self.outcome_digest,
            self.witnessed_root,
            self.inclusion,
            self.attester,
            self.attester_key,
            self.role,
        )
    }

    /// What checking the signature over the payload under the attester's key
    /// gives.
    pub open spec fn spec_signature_outcome(&self) -> Result<bool, CryptoError> {
        spec_verify_signature(
            self.spec_payload(),
            self.signature.algorithm,
            self.signature.bytes@,
            self.attester_key.algorithm,
            self.attester_key.bytes@,
        )
    }

    /// Whether the attestation is independent of `executor_key` and validly
    /// signed by its attester.
    pub open spec fn spec_accepted(&self, executor_key: PublicKey) -> bool {
        !same_key(self.attester_key, executor_key) && self.spec_signature_outcome() == Ok::<bool, CryptoError>(true)
    }

    /// Whether `r` is what [`CompletionAttestation::verify`] returns for
    /// `executor_key`: `NotIndependent` for the executor's own key, otherwise
    /// the signature check's outcome.
    pub open spec fn spec_verify_result(&self, executor_key: PublicKey, r: Result<(), AttestationError>) -> bool {
        if same_key(self.attester_key, executor_key) {
            r == Err::<(), AttestationError>(AttestationError::NotIndependent)
        } else {
            match self.spec_signature_outcome() {
                Ok(true) => r is Ok,
                Ok(false) => r == Err::<(), AttestationError>(AttestationError::SignatureInvalid),
                Err(e) => r matches Err(AttestationError::Crypto(m)) && m@ == spec_error_message(e),
            }
        }
    }

    /// Build and sign an attestation with `signer` (the attester's key),
    /// recording which independence flow it represents. The signer's own
    /// failure is returned as an error; a signer that always signs always
    /// yields an attestation.
    pub fn attest_as<S: Signer + ?Sized>(
        role: AttesterRole,
        signer: &S,
        attester: Principal,
        chain_digest: Digest,
        requested_action_digest: Digest,
        outcome_digest: Digest,
        witnessed_root: Digest,
        inclusion: InclusionProof,
    ) -> (r: Result<CompletionAttestation, CryptoError>)
        ensures
            r matches Ok(a) ==> {
                &&& a.chain_digest == chain_digest
                &&& a.requested_action_digest == requested_action_digest
                &&& a.outcome_digest == outcome_digest
                &&& a.witnessed_root == witnessed_root
                &&& a.inclusion == inclusion
                &&& a.attester == attester
                &&& a.role == role
                &&& a.attester_key.algorithm == signer.spec_algorithm()
                &&& a.attester_key.bytes@ == signer.spec_public_key_bytes()
                &&& a.signature.algorithm == signer.spec_algorithm()
                &&& signer.spec_verifies_own() ==> a.spec_signature_outcome() == Ok::<bool, CryptoError>(true)
            },
            r matches Ok(a) ==> exists|p: &[u8]|
                p@ == a.spec_payload() && #[trigger] call_ensures(
                    S::sign,
                    (signer, p),
                    Ok::<Signature, CryptoError>(a.signature),
                ),
            r matches Err(e) ==> exists|p: &[u8], k: PublicKey|
                #![trigger call_ensures(S::sign, (signer, p), Err::<Signature, CryptoError>(e)), k.bytes]
                k.algorithm == signer.spec_algorithm() && k.bytes@ == signer.spec_public_key_bytes() && p@
                    == spec_signing_payload(
                    chain_digest,
                    requested_action_digest,
                    outcome_digest,
                    witnessed_root,
                    inclusion,
                    attester,
                    k,
                    role,
                ) && call_ensures(S::sign, (signer, p), Err::<Signature, CryptoError>(e)),
            r matches Ok(a) ==> (signer.spec_verifies_own() ==> forall|k: PublicKey|
                !same_key(a.attester_key, k) ==> #[trigger] a.spec_accepted(k)),
            signer.spec_always_signs() ==> r is Ok,
    {
        let attester_key = signer.public_key();
        let payload = signing_payload(
            &chain_digest,
            &requested_action_digest,
            &outcome_digest,
            &witnessed_root,
            &inclusion,
            &attester,
            &attester_key,
            &role,
        );
        let pslice = payload.as_slice();
        let signed = signer.sign(pslice);
        let signature = match signed {
            Ok(s) => s,
            Err(e) => return Err(e),
        };
        Ok(CompletionAttestation {
            chain_digest,
            requested_action_digest,
            outcome_digest,
            witnessed_root,
            inclusion,
            attester,
            attester_key,
            role,
            signature,
        })
    }

    /// Build and sign an attestation as a third party
    /// ([`AttesterRole::ThirdParty`]).
    pub fn attest<S: Signer + ?Sized>(
        signer: &S,
        attester: Principal,
        chain_digest: Digest,
        requested_action_digest: Digest,
        outcome_digest: Digest,
        witnessed_root: Digest,
        inclusion: InclusionProof,
    ) -> (r: Result<CompletionAttestation, CryptoError>)
        ensures
            r matches Ok(a) ==> {
                &&& a.chain_digest == chain_digest
                &&& a.requested_action_digest == requested_action_digest
                &&& a.outcome_digest == outcome_digest
                &&& a.witnessed_root == witnessed_root
                &&& a.inclusion == inclusion
                &&& a.attester == attester
                &&& a.role == AttesterRole::ThirdParty
                &&& a.attester_key.algorithm == signer.spec_algorithm()
                &&& a.attester_key.bytes@ == signer.spec_public_key_bytes()
                &&& a.signature.algorithm == signer.spec_algorithm()
                &&& signer.spec_verifies_own() ==> a.spec_signature_outcome() == Ok::<bool, CryptoError>(true)
            },
            r matches Ok(a) ==> exists|p: &[u8]|
                p@ == a.spec_payload() && #[trigger] call_ensures(
                    S::sign,
                    (signer, p),
                    Ok::<Signature, CryptoError>(a.signature),
                ),
            r matches Err(e) ==> exists|p: &[u8], k: PublicKey|
                #![trigger call_ensures(S::sign, (signer, p), Err::<Signature, CryptoError>(e)), k.bytes]
                k.algorithm == signer.spec_algorithm() && k.bytes@ == signer.spec_public_key_bytes() && p@
                    == spec_signing_payload(
                    chain_digest,
                    requested_action_digest,
                    outcome_digest,
                    witnessed_root,
                    inclusion,
                    attester,
                    k,
                    AttesterRole::ThirdParty,
                ) && call_ensures(S::sign, (signer, p), Err::<Signature, CryptoError>(e)),
            r matches Ok(a) ==> (signer.spec_verifies_own() ==> forall|k: PublicKey|
                !same_key(a.attester_key, k) ==> #[trigger] a.spec_accepted(k)),
            signer.spec_always_signs() ==> r is Ok,
    {
        Self::attest_as(
            AttesterRole::ThirdParty,
            signer,
            attester,
            chain_digest,
            requested_action_digest,
            outcome_digest,
            witnessed_root,
            inclusion,
        )
    }

    /// Verify the attestation is (a) not self-reported by `executor_key` and
    /// (b) genuinely signed by the named attester. Fails closed: a signature
    /// that cannot be checked is a `Crypto` error carrying the reason.
    pub fn verify(&self, executor_key: &PublicKey) -> (r: Result<(), AttestationError>)
        ensures
            same_key(self.attester_key, *executor_key) ==> r == Err::<(), AttestationError>(AttestationError::NotIndependent),
            !same_key(self.attester_key, *executor_key) ==> match self.spec_signature_outcome() {
                Ok(true) => r is Ok,
                Ok(false) => r == Err::<(), AttestationError>(AttestationError::SignatureInvalid),
                Err(e) => r matches Err(AttestationError::Crypto(m)) && m@ == spec_error_message(e),
            },
            r is Ok <==> self.spec_accepted(*executor_key),
            self.spec_verify_result(*executor_key, r),
    {
        if self.attester_key.same_key(executor_key) {
            return Err(AttestationError::NotIndependent);
        }
        let payload = signing_payload(
            &self.chain_digest,
            &self.requested_action_digest,
            &self.outcome_digest,
            &self.witnessed_root,
            &self.inclusion,
            &self.attester,
            &self.attester_key,
            &self.role,
        );
        match verify_signature(payload.as_slice(), &self.signature, &self.attester_key) {
            Ok(true) => Ok(()),
            Ok(false) => Err(AttestationError::SignatureInvalid),
            Err(e) => Err(AttestationError::from_crypto(e)),
        }
    }
}

// ---------------------------------------------------------------------------
// k-of-n aggregate
// ---------------------------------------------------------------------------

/// A k-of-n aggregate completion attestation: the completion holds only if at
/// least `threshold` distinct, independent attesters each vouch for the same
/// action.
#[derive(Debug, Clone, PartialEq, Eq)]
pub struct ThresholdAttestation {
    /// The candidate attestations. Only distinct, independently valid ones over
    /// a shared binding count.
    pub attestations: Vec<CompletionAttestation>,
    /// How many independent, distinct attesters must vouch (the `k`).
    pub threshold: usize,
}

/// Why a [`ThresholdAttestation`] failed to hold.
#[derive(Debug, Clone, Copy, PartialEq, Eq)]
pub enum ThresholdError {
    /// Fewer than `need` attestations individually verify.
    NotEnoughIndependentAttestations { have: usize, need: usize },
    /// Two attestations were signed under the same attester key.
    DuplicateAttester,
    /// The attestations do not all commit to the same (chain, requested
    /// action, outcome, witnessed root).
    InconsistentBinding,
}

/// Whether two attestations commit to the same (chain, requested action,
/// outcome, witnessed root).
pub open spec fn same_binding(a: CompletionAttestation, b: CompletionAttestation) -> bool {
    &&& a.chain_digest == b.chain_digest
    &&& a.requested_action_digest == b.requested_action_digest
    &&& a.outcome_digest == b.outcome_digest
    &&& a.witnessed_root == b.witnessed_root
}

/// Every attestation commits to the same binding.
pub open spec fn spec_consistent(atts: Seq<CompletionAttestation>) -> bool {
    forall|i: int, j: int| 0 <= i < atts.len() && 0 <= j < atts.len() ==> same_binding(#[trigger] atts[i], #[trigger] atts[j])
}

/// No two attestations share an attester key.
pub open spec fn spec_distinct_attesters(atts: Seq<CompletionAttestation>) -> bool {
    forall|i: int, j: int|
        0 <= i < atts.len() && 0 <= j < atts.len() && i != j ==> !same_key(
            #[trigger] atts[i].attester_key,
            #[trigger] atts[j].attester_key,
        )
}

/// How many of the attestations are individually accepted against
/// `executor_key`.
pub open spec fn spec_accepted_count(atts: Seq<CompletionAttestation>, executor_key: PublicKey) -> nat
    decreases atts.len(),
{
    if atts.len() == 0 {
        0
    } else {
        spec_accepted_count(atts.drop_last(), executor_key) + if atts.last().spec_accepted(executor_key) {
            1nat
        } else {
            0nat
        }
    }
}

proof fn lemma_accepted_count_bound(atts: Seq<CompletionAttestation>, executor_key: PublicKey)
    ensures
        spec_accepted_count(atts, executor_key) <= atts.len(),
    decreases atts.len(),
{
    if atts.len() > 0 {
        lemma_accepted_count_bound(atts.drop_last(), executor_key);
    }
}

/// `atts` with the attestations at positions `i` and `j` exchanged.
pub open spec fn swapped(atts: Seq<CompletionAttestation>, i: int, j: int) -> Seq<CompletionAttestation> {
    atts.update(i, atts[j]).update(j, atts[i])
}

spec fn accepted_one(a: CompletionAttestation, executor_key: PublicKey) -> nat {
    if a.spec_accepted(executor_key) {
        1nat
    } else {
        0nat
    }
}

proof fn lemma_accepted_count_update(atts: Seq<CompletionAttestation>, i: int, a: CompletionAttestation, executor_key: PublicKey)
    requires
        0 <= i < atts.len(),
    ensures
        spec_accepted_count(atts.update(i, a), executor_key) + accepted_one(atts[i], executor_key)
            == spec_accepted_count(atts, executor_key) + accepted_one(a, executor_key),
    decreases atts.len(),
{
    if i == atts.len() - 1 {
        assert(atts.update(i, a).drop_last() =~= atts.drop_last());
    } else {
        lemma_accepted_count_update(atts.drop_last(), i, a, executor_key);
        assert(atts.update(i, a).drop_last() =~= atts.drop_last().update(i, a));
    }
}

/// Order is irrelevant: exchanging any two attestations of an aggregate
/// changes neither whether they all share one binding, nor whether their
/// attesters are distinct, nor how many of them are accepted — so the result
/// of [`ThresholdAttestation::verify`] is the same for every ordering.
pub proof fn lemma_threshold_order_irrelevant(
    atts: Seq<CompletionAttestation>,
    i: int,
    j: int,
    executor_key: PublicKey,
)
    requires
        0 <= i < atts.len(),
        0 <= j < atts.len(),
    ensures
        spec_consistent(swapped(atts, i, j)) == spec_consistent(atts),
        spec_distinct_attesters(swapped(atts, i, j)) == spec_distinct_attesters(atts),
        spec_accepted_count(swapped(atts, i, j), executor_key) == spec_accepted_count(atts, executor_key),
{
    let s = swapped(atts, i, j);
    // position p of `s` holds the attestation at position `src(p)` of `atts`
    assert forall|p: int| 0 <= p < atts.len() implies #[trigger] s[p] == atts[if p == j {
        i
    } else if p == i {
        j
    } else {
        p
    }] by {}
    assert forall|p: int| 0 <= p < atts.len() implies #[trigger] atts[p] == s[if p == j {
        i
    } else if p == i {
        j
    } else {
        p
    }] by {}
    if spec_consistent(atts) {
        assert forall|p: int, q: int| 0 <= p < s.len() && 0 <= q < s.len() implies same_binding(
            #[trigger] s[p],
            #[trigger] s[q],
        ) by {
            let sp = if p == j { i } else if p == i { j } else { p };
            let sq = if q == j { i } else if q == i { j } else { q };
        }
    }
    if spec_consistent(s) {
        assert forall|p: int, q: int| 0 <= p < atts.len() && 0 <= q < atts.len() implies same_binding(
            #[trigger] atts[p],
            #[trigger] atts[q],
        ) by {
            let sp = if p == j { i } else if p == i { j } else { p };
            let sq = if q == j { i } else if q == i { j } else { q };
        }
    }
    if spec_distinct_attesters(atts) {
        assert forall|p: int, q: int| 0 <= p < s.len() && 0 <= q < s.len() && p != q implies !same_key(
            #[trigger] s[p].attester_key,
            #[trigger] s[q].attester_key,
        ) by {
            let sp = if p == j { i } else if p == i { j } else { p };
            let sq = if q == j { i } else if q == i { j } else { q };
        }
    }
    if spec_distinct_attesters(s) {
        assert forall|p: int, q: int| 0 <= p < atts.len() && 0 <= q < atts.len() && p != q implies !same_key(
            #[trigger] atts[p].attester_key,
            #[trigger] atts[q].attester_key,
        ) by {
            let sp = if p == j { i } else if p == i { j } else { p };
            let sq = if q == j { i } else if q == i { j } else { q };
        }
    }
    let t = atts.update(i, atts[j]);
    lemma_accepted_count_update(atts, i, atts[j], executor_key);
    lemma_accepted_count_update(t, j, atts[i], executor_key);
}

fn same_binding_exec(a: &CompletionAttestation, b: &CompletionAttestation) -> (r: bool)
    ensures
        r == same_binding(*a, *b),
{
    hash_eq(&a.chain_digest, &b.chain_digest) && hash_eq(&a.requested_action_digest, &b.requested_action_digest)
        && hash_eq(&a.outcome_digest, &b.outcome_digest) && hash_eq(&a.witnessed_root, &b.witnessed_root)
}

/// A bundle that passes the k-of-n check is about one action: every
/// attestation names the same chain, requested action, outcome and witnessed
/// root as the first, and the attesters' keys are pairwise different.
pub proof fn lemma_threshold_ok_shares_one_binding(bundle: ThresholdAttestation, executor_key: PublicKey)
    requires
        bundle.spec_verify(executor_key) is Ok,
    ensures
        forall|i: int|
            0 <= i < bundle.attestations@.len() ==> {
                &&& (#[trigger] bundle.attestations@[i]).chain_digest == bundle.attestations@[0].chain_digest
                &&& bundle.attestations@[i].requested_action_digest == bundle.attestations@[0].requested_action_digest
                &&& bundle.attestations@[i].outcome_digest == bundle.attestations@[0].outcome_digest
                &&& bundle.attestations@[i].witnessed_root == bundle.attestations@[0].witnessed_root
            },
        forall|i: int, j: int|
            0 <= i < bundle.attestations@.len() && 0 <= j < bundle.attestations@.len() && i != j ==> !(
            (#[trigger] bundle.attestations@[i]).attester_key.algorithm
                == (#[trigger] bundle.attestations@[j]).attester_key.algorithm
                && bundle.attestations@[i].attester_key.bytes@ == bundle.attestations@[j].attester_key.bytes@),
{
    let atts = bundle.attestations@;
    assert forall|i: int| 0 <= i < atts.len() implies (#[trigger] atts[i]).chain_digest == atts[0].chain_digest
        && atts[i].requested_action_digest == atts[0].requested_action_digest && atts[i].outcome_digest
        == atts[0].outcome_digest && atts[i].witnessed_root == atts[0].witnessed_root by {
        assert(same_binding(atts[i], atts[0]));
    }
    assert forall|i: int, j: int|
        0 <= i < atts.len() && 0 <= j < atts.len() && i != j implies !((#[trigger] atts[i]).attester_key.algorithm
        == (#[trigger] atts[j]).attester_key.algorithm && atts[i].attester_key.bytes@ == atts[j].attester_key.bytes@) by {
        assert(!same_key(atts[i].attester_key, atts[j].attester_key));
    }
}

impl ThresholdAttestation {
    /// What [`ThresholdAttestation::verify`] returns for `executor_key`.
    pub open spec fn spec_verify(&self, executor_key: PublicKey) -> Result<(), ThresholdError> {
        if !spec_consistent(self.attestations@) {
            Err(ThresholdError::InconsistentBinding)
        } else if !spec_distinct_attesters(self.attestations@) {
            Err(ThresholdError::DuplicateAttester)
        } else if spec_accepted_count(self.attestations@, executor_key) >= self.threshold {
            Ok(())
        } else {
            Err(
                ThresholdError::NotEnoughIndependentAttestations {
                    have: spec_accepted_count(self.attestations@, executor_key) as usize,
                    need: self.threshold,
                },
            )
        }
    }

    /// Verify the aggregate against the executing agent's key. Holds only if
    /// (1) every attestation binds the same (chain, requested, outcome, root),
    /// (2) no two share an attester key, and (3) at least `threshold` of them
    /// individually verify. Fails closed on the first property violated.
    pub fn verify(&self, executor_key: &PublicKey) -> (r: Result<(), ThresholdError>)
        ensures
            r == self.spec_verify(*executor_key),
            r is Ok ==> forall|i: int|
                0 <= i < self.attestations@.len() ==> {
                    &&& (#[trigger] self.attestations@[i]).chain_digest == self.attestations@[0].chain_digest
                    &&& self.attestations@[i].requested_action_digest == self.attestations@[0].requested_action_digest
                    &&& self.attestations@[i].outcome_digest == self.attestations@[0].outcome_digest
                    &&& self.attestations@[i].witnessed_root == self.attestations@[0].witnessed_root
                },
            !spec_consistent(self.attestations@) ==> r == Err::<(), ThresholdError>(ThresholdError::InconsistentBinding),
            spec_consistent(self.attestations@) && !spec_distinct_attesters(self.attestations@) ==> r == Err::<
                (),
                ThresholdError,
            >(ThresholdError::DuplicateAttester),
            spec_consistent(self.attestations@) && spec_distinct_attesters(self.attestations@) ==> {
                let have = spec_accepted_count(self.attestations@, *executor_key);
                if have >= self.threshold {
                    r is Ok
                } else {
                    r == Err::<(), ThresholdError>(ThresholdError::NotEnoughIndependentAttestations {
                        have: have as usize,
                        need: self.threshold,
                    })
                }
            },
    {
        let ghost atts = self.attestations@;
        let n = self.attestations.len();
        // 1. All attestations must be about the same action.
        if n > 0 {
            let first = &self.attestations[0];
            let mut i: usize = 0;
            while i < n
                invariant
                    n == atts.len(),
                    atts == self.attestations@,
                    *first == atts[0],
                    i <= n,
                    forall|k: int| 0 <= k < i ==> same_binding(#[trigger] atts[k], atts[0]),
                decreases n - i,
            {
                if !same_binding_exec(&self.attestations[i], first) {
                    return Err(ThresholdError::InconsistentBinding);
                }
                i = i + 1;
            }
        }
        assert(spec_consistent(atts)) by {
            assert forall|i: int, j: int| 0 <= i < atts.len() && 0 <= j < atts.len() implies same_binding(
                #[trigger] atts[i],
                #[trigger] atts[j],
            ) by {}
        }
        // 2. Distinct attester keys: a repeated key is rejected, never deduped.
        let mut i: usize = 0;
        while i < n
            invariant
                n == atts.len(),
                atts == self.attestations@,
                i <= n,
                spec_consistent(atts),
                forall|p: int, q: int|
                    0 <= p < i && 0 <= q < i && p != q ==> !same_key(
                        #[trigger] atts[p].attester_key,
                        #[trigger] atts[q].attester_key,
                    ),
            decreases n - i,
        {
            let mut j: usize = 0;
            while j < i
                invariant
                    n == atts.len(),
                    atts == self.attestations@,
                    i < n,
                    j <= i,
                    spec_consistent(atts),
                    forall|p: int, q: int|
                        0 <= p < i && 0 <= q < i && p != q ==> !same_key(
                            #[trigger] atts[p].attester_key,
                            #[trigger] atts[q].attester_key,
                        ),
                    forall|q: int| 0 <= q < j ==> !same_key(atts[i as int].attester_key, #[trigger] atts[q].attester_key),
                decreases i - j,
            {
                if self.attestations[i].attester_key.same_key(&self.attestations[j].attester_key) {
                    assert(!spec_distinct_attesters(atts));
                    return Err(ThresholdError::DuplicateAttester);
                }
                j = j + 1;
            }
            i = i + 1;
        }
        // 3. Count only those that individually verify.
        let mut have: usize = 0;
        let mut k: usize = 0;
        while k < n
            invariant
                n == atts.len(),
                atts == self.attestations@,
                k <= n,
                spec_consistent(atts),
                spec_distinct_attesters(atts),
                have == spec_accepted_count(atts.subrange(0, k as int), *executor_key),
                have <= k,
            decreases n - k,
        {
            let ok = self.attestations[k].verify(executor_key).is_ok();
            proof {
                let pre = atts.subrange(0, k + 1);
                assert(pre.drop_last() =~= atts.subrange(0, k as int));
            }
            if ok {
                have = have + 1;
            }
            k = k + 1;
        }
        assert(atts.subrange(0, n as int) =~= atts);
        if have < self.threshold {
            return Err(ThresholdError::NotEnoughIndependentAttestations { have, need: self.threshold });
        }
        Ok(())
    }
}

} // verus!
