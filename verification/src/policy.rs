//! The composed, fail-closed verification of a cross-org action: the
//! verifier-set policy for how strong a completion attestation must be, and
//! the gates an action passes once its chain has been checked — binding to the
//! chain, non-equivocation against a trusted root, inclusion in the witnessed
//! log, independent and anchored attestation, and digest agreement.
use vstd::prelude::*;

use crate::attestation::{same_key, AttestationError, AttesterRole, CompletionAttestation, ThresholdAttestation, ThresholdError};
use crate::chain::{Chain, ChainError, Scope};
use crate::crypto::PublicKey;
use crate::hashing::hash_eq;
use crate::witness::{
    path_view, spec_canonical_bytes, spec_fold, spec_hash_leaf, spec_verify_inclusion, verify_inclusion, ActionReceipt, Digest,
};

verus! {

/// Verifier-set policy for how strong an attestation must be. The presenter
/// supplies the attestation; the verifier decides what counts as sufficient.
/// The default trusts no third-party attester and disables counter-signing:
/// nothing is accepted until the verifier names who it trusts.
#[derive(Debug, Clone)]
pub struct VerifyPolicy {
    /// Attester keys trusted for a third-party attestation.
    pub trusted_attesters: Vec<PublicKey>,
    /// Accept a counter-signed attestation from a genuine delegator in the
    /// chain.
    pub allow_counter_signed: bool,
}

impl VerifyPolicy {
    /// Require a third-party attestation from one of `trusted` keys.
    pub fn third_party(trusted: Vec<PublicKey>) -> (p: VerifyPolicy)
        ensures
            p.trusted_attesters == trusted,
            !p.allow_counter_signed,
    {
        VerifyPolicy { trusted_attesters: trusted, allow_counter_signed: false }
    }

    /// Accept a counter-signature from any genuine delegator in the chain.
    pub fn counter_signed() -> (p: VerifyPolicy)
        ensures
            p.trusted_attesters@.len() == 0,
            p.allow_counter_signed,
    {
        VerifyPolicy { trusted_attesters: Vec::new(), allow_counter_signed: true }
    }
}

impl Default for VerifyPolicy {
    fn default() -> (p: VerifyPolicy)
        ensures
            p.trusted_attesters@.len() == 0,
            !p.allow_counter_signed,
    {
        VerifyPolicy { trusted_attesters: Vec::new(), allow_counter_signed: false }
    }
}

/// Whether `key` is one of `keys` (same algorithm, same bytes).
pub open spec fn key_listed(keys: Seq<PublicKey>, key: PublicKey) -> bool {
    exists|i: int| 0 <= i < keys.len() && same_key(#[trigger] keys[i], key)
}

fn key_in(keys: &[PublicKey], key: &PublicKey) -> (r: bool)
    ensures
        r == key_listed(keys@, *key),
{
    let mut i: usize = 0;
    while i < keys.len()
        invariant
            i <= keys@.len(),
            forall|j: int| 0 <= j < i ==> !same_key(#[trigger] keys@[j], *key),
        decreases keys@.len() - i,
    {
        if keys[i].same_key(key) {
            return true;
        }
        i = i + 1;
    }
    false
}

/// Whether the attester's identity is anchored to something the verifier
/// trusts for its role: a third party must be one of the policy's trusted
/// attesters; a counter-signer must be a party of the chain (`chain_keys`), and
/// counter-signing must be allowed.
pub open spec fn spec_anchored(policy: VerifyPolicy, chain_keys: Seq<PublicKey>, a: CompletionAttestation) -> bool {
    match a.role {
        AttesterRole::ThirdParty => key_listed(policy.trusted_attesters@, a.attester_key),
        AttesterRole::CounterSigned => policy.allow_counter_signed && key_listed(chain_keys, a.attester_key),
    }
}

fn attester_is_anchored(chain_keys: &[PublicKey], completion: &CompletionAttestation, policy: &VerifyPolicy) -> (r: bool)
    ensures
        r == spec_anchored(*policy, chain_keys@, *completion),
{
    match completion.role {
        AttesterRole::ThirdParty => key_in(policy.trusted_attesters.as_slice(), &completion.attester_key),
        AttesterRole::CounterSigned => policy.allow_counter_signed && key_in(chain_keys, &completion.attester_key),
    }
}

/// Whether `receipt` is included, by `a`'s proof, under `root`.
pub open spec fn spec_receipt_included(receipt: ActionReceipt, a: CompletionAttestation, root: Digest) -> bool {
    spec_verify_inclusion(
        spec_canonical_bytes(receipt),
        a.inclusion.leaf_index as nat,
        a.inclusion.tree_size as nat,
        path_view(a.inclusion.path@),
        root@,
    )
}

/// Everything a verifier needs to check one cross-org action end to end.
#[derive(Debug, Clone)]
pub struct VerifiableAction {
    /// The delegation chain the action ran under.
    pub chain: Chain,
    /// The receipt that must be present in the witness for this action.
    pub action_receipt: ActionReceipt,
    /// The independent completion attestation (carrying its own witnessed root
    /// and inclusion proof).
    pub completion: CompletionAttestation,
}

/// [`VerifiableAction`] with a k-of-n [`ThresholdAttestation`] in place of a
/// single completion.
#[derive(Debug, Clone)]
pub struct VerifiableThresholdAction {
    /// The delegation chain the action ran under.
    pub chain: Chain,
    /// The receipt that must be present in the witness for this action.
    pub action_receipt: ActionReceipt,
    /// The k-of-n bundle of completion attestations.
    pub completion: ThresholdAttestation,
}

/// Why a verification failed; each variant names the violated property.
#[derive(Debug, PartialEq, Eq)]
pub enum VerifyError {
    /// The chain itself did not verify.
    Chain(ChainError),
    /// The action has no inclusion proof against the witnessed root.
    Omission,
    /// The attested witness root is not the trusted root.
    Equivocation,
    /// The completion is not independently attested.
    Attestation(AttestationError),
    /// The attested outcome is not the action recorded in the witness.
    OutcomeMismatch,
    /// The attester's identity is not trusted for its role.
    AttesterNotAnchored,
    /// The receipt or attestation does not bind to this chain.
    ChainBindingMismatch,
    /// The requested action is not the one recorded in the witness.
    ActionDigestInconsistent,
    /// A k-of-n bundle failed its threshold or independence rule.
    Threshold(ThresholdError),
    /// The bundle declares a threshold below the verifier's bar.
    InsufficientAttestation { required: usize, declared: usize },
}

/// What [`verify`] returns once the chain has verified to `scope`, as the
/// first gate that fails (`Err`) or success. The attestation gate is left to
/// [`CompletionAttestation::spec_verify_result`]: here it is `None` when the
/// completion is not accepted.
pub open spec fn spec_gates(
    action: VerifiableAction,
    chain_digest: Digest,
    executor_key: PublicKey,
    chain_keys: Seq<PublicKey>,
    trusted_root: Digest,
    policy: VerifyPolicy,
) -> Option<Result<(), VerifyError>> {
    let rc = action.action_receipt;
    let c = action.completion;
    if rc.chain_digest != chain_digest || c.chain_digest != chain_digest {
        Some(Err(VerifyError::ChainBindingMismatch))
    } else if c.witnessed_root != trusted_root {
        Some(Err(VerifyError::Equivocation))
    } else if !spec_receipt_included(rc, c, trusted_root) {
        Some(Err(VerifyError::Omission))
    } else if !c.spec_accepted(executor_key) {
        None
    } else if !spec_anchored(policy, chain_keys, c) {
        Some(Err(VerifyError::AttesterNotAnchored))
    } else if c.outcome_digest != rc.action_digest {
        Some(Err(VerifyError::OutcomeMismatch))
    } else if c.requested_action_digest != rc.action_digest {
        Some(Err(VerifyError::ActionDigestInconsistent))
    } else {
        Some(Ok(()))
    }
}

/// Verify a cross-org action, failing closed at the first broken gate.
/// `chain_verified` is the chain's own verification (signatures and
/// attenuation under the trust anchor) and, with `chain_digest`,
/// `executor_key` (the final delegatee's key) and `chain_keys` (the root and
/// every hop's keys), what the chain gives the gates. Returns the chain's
/// effective scope when every gate holds.
pub fn verify(
    action: &VerifiableAction,
    chain_verified: Result<Scope, ChainError>,
    chain_digest: &Digest,
    executor_key: &PublicKey,
    chain_keys: &[PublicKey],
    trusted_root: &Digest,
    policy: &VerifyPolicy,
) -> (r: Result<Scope, VerifyError>)
    ensures
        match chain_verified {
            Err(e) => r == Err::<Scope, VerifyError>(VerifyError::Chain(e)),
            Ok(scope) => match spec_gates(*action, *chain_digest, *executor_key, chain_keys@, *trusted_root, *policy) {
                Some(Ok(())) => r == Ok::<Scope, VerifyError>(scope),
                Some(Err(e)) => r == Err::<Scope, VerifyError>(e),
                None => r matches Err(VerifyError::Attestation(ae)) && action.completion.spec_verify_result(
                    *executor_key,
                    Err::<(), AttestationError>(ae),
                ),
            },
        },
        r is Ok ==> (action.completion.role == AttesterRole::CounterSigned ==> policy.allow_counter_signed && exists|i: int|
                0 <= i < chain_keys@.len() && (#[trigger] chain_keys@[i]).algorithm == action.completion.attester_key.algorithm
                    && chain_keys@[i].bytes@ == action.completion.attester_key.bytes@),
        r is Ok ==> (action.completion.role == AttesterRole::ThirdParty ==> exists|i: int|
                0 <= i < policy.trusted_attesters@.len() && (#[trigger] policy.trusted_attesters@[i]).algorithm
                    == action.completion.attester_key.algorithm && policy.trusted_attesters@[i].bytes@ == action.completion.attester_key.bytes@),
{
    let scope = match chain_verified {
        Ok(s) => s,
        Err(e) => return Err(VerifyError::Chain(e)),
    };
    let rc = &action.action_receipt;
    let c = &action.completion;
    if !hash_eq(&rc.chain_digest, chain_digest) || !hash_eq(&c.chain_digest, chain_digest) {
        return Err(VerifyError::ChainBindingMismatch);
    }
    if !hash_eq(&c.witnessed_root, trusted_root) {
        return Err(VerifyError::Equivocation);
    }
    if !verify_inclusion(rc, &c.inclusion, trusted_root) {
        return Err(VerifyError::Omission);
    }
    match c.verify(executor_key) {
        Ok(()) => {},
        Err(e) => return Err(VerifyError::Attestation(e)),
    }
    if !attester_is_anchored(chain_keys, c, policy) {
        return Err(VerifyError::AttesterNotAnchored);
    }
    if !hash_eq(&c.outcome_digest, &rc.action_digest) {
        return Err(VerifyError::OutcomeMismatch);
    }
    if !hash_eq(&c.requested_action_digest, &rc.action_digest) {
        return Err(VerifyError::ActionDigestInconsistent);
    }
    Ok(scope)
}

/// The first attestation (in order) whose outcome or requested digest is not
/// `action_digest`: `Some(true)` if its outcome differs, `Some(false)` if only
/// its requested digest does; `None` if all agree.
pub open spec fn spec_digest_fault(atts: Seq<CompletionAttestation>, action_digest: Digest) -> Option<bool>
    decreases atts.len(),
{
    if atts.len() == 0 {
        None
    } else if atts[0].outcome_digest != action_digest {
        Some(true)
    } else if atts[0].requested_action_digest != action_digest {
        Some(false)
    } else {
        spec_digest_fault(atts.drop_first(), action_digest)
    }
}

/// What [`verify_threshold`] returns once the chain has verified: the first
/// gate that fails, or success.
pub open spec fn spec_threshold_gates(
    action: VerifiableThresholdAction,
    chain_digest: Digest,
    executor_key: PublicKey,
    chain_keys: Seq<PublicKey>,
    trusted_root: Digest,
    required_threshold: usize,
    policy: VerifyPolicy,
) -> Result<(), VerifyError> {
    let rc = action.action_receipt;
    let bundle = action.completion;
    let atts = bundle.attestations@;
    if bundle.threshold < required_threshold {
        Err(VerifyError::InsufficientAttestation { required: required_threshold, declared: bundle.threshold })
    } else if rc.chain_digest != chain_digest || exists|i: int|
        0 <= i < atts.len() && (#[trigger] atts[i]).chain_digest != chain_digest {
        Err(VerifyError::ChainBindingMismatch)
    } else if exists|i: int| 0 <= i < atts.len() && (#[trigger] atts[i]).witnessed_root != trusted_root {
        Err(VerifyError::Equivocation)
    } else if exists|i: int| 0 <= i < atts.len() && !spec_receipt_included(rc, #[trigger] atts[i], trusted_root) {
        Err(VerifyError::Omission)
    } else if bundle.spec_verify(executor_key) is Err {
        Err(VerifyError::Threshold(bundle.spec_verify(executor_key)->Err_0))
    } else if exists|i: int| 0 <= i < atts.len() && !spec_anchored(policy, chain_keys, #[trigger] atts[i]) {
        Err(VerifyError::AttesterNotAnchored)
    } else {
        match spec_digest_fault(atts, rc.action_digest) {
            Some(true) => Err(VerifyError::OutcomeMismatch),
            Some(false) => Err(VerifyError::ActionDigestInconsistent),
            None => Ok(()),
        }
    }
}

/// [`verify`] with a k-of-n [`ThresholdAttestation`]: the verifier's own
/// `required_threshold` comes first (a bundle declaring a smaller `k` is
/// refused before any signature is looked at); then every attestation must
/// bind this chain, commit to the trusted root and prove the receipt's
/// inclusion; then the k-of-n rule, identity anchoring of every attester, and
/// digest agreement.
#[verifier::loop_isolation(false)]
pub fn verify_threshold(
    action: &VerifiableThresholdAction,
    chain_verified: Result<Scope, ChainError>,
    chain_digest: &Digest,
    executor_key: &PublicKey,
    chain_keys: &[PublicKey],
    trusted_root: &Digest,
    required_threshold: usize,
    policy: &VerifyPolicy,
) -> (r: Result<Scope, VerifyError>)
    ensures
        match chain_verified {
            Err(e) => r == Err::<Scope, VerifyError>(VerifyError::Chain(e)),
            Ok(scope) => match spec_threshold_gates(
                *action,
                *chain_digest,
                *executor_key,
                chain_keys@,
                *trusted_root,
                required_threshold,
                *policy,
            ) {
                Ok(()) => r == Ok::<Scope, VerifyError>(scope),
                Err(e) => r == Err::<Scope, VerifyError>(e),
            },
        },
        r is Ok ==> forall|n: int|
            0 <= n < action.completion.attestations@.len() ==> {
                &&& ((#[trigger] action.completion.attestations@[n]).role == AttesterRole::CounterSigned ==> policy.allow_counter_signed && exists|i: int|
                    0 <= i < chain_keys@.len() && (#[trigger] chain_keys@[i]).algorithm == action.completion.attestations@[n].attester_key.algorithm
                        && chain_keys@[i].bytes@ == action.completion.attestations@[n].attester_key.bytes@)
                &&& (action.completion.attestations@[n].role == AttesterRole::ThirdParty ==> exists|i: int|
                    0 <= i < policy.trusted_attesters@.len() && (#[trigger] policy.trusted_attesters@[i]).algorithm
                        == action.completion.attestations@[n].attester_key.algorithm && policy.trusted_attesters@[i].bytes@ == action.completion.attestations@[n].attester_key.bytes@)
            },
{
    let scope = match chain_verified {
        Ok(s) => s,
        Err(e) => return Err(VerifyError::Chain(e)),
    };
    let rc = &action.action_receipt;
    let bundle = &action.completion;
    let atts = &bundle.attestations;
    let n = atts.len();
    if bundle.threshold < required_threshold {
        return Err(VerifyError::InsufficientAttestation { required: required_threshold, declared: bundle.threshold });
    }
    if !hash_eq(&rc.chain_digest, chain_digest) {
        return Err(VerifyError::ChainBindingMismatch);
    }
    let mut i: usize = 0;
    while i < n
        invariant
            n == atts@.len(),
            i <= n,
            forall|j: int| 0 <= j < i ==> (#[trigger] atts@[j]).chain_digest == *chain_digest,
        decreases n - i,
    {
        if !hash_eq(&atts[i].chain_digest, chain_digest) {
            return Err(VerifyError::ChainBindingMismatch);
        }
        i = i + 1;
    }
    let mut i: usize = 0;
    while i < n
        invariant
            n == atts@.len(),
            i <= n,
            forall|j: int| 0 <= j < i ==> (#[trigger] atts@[j]).witnessed_root == *trusted_root,
        decreases n - i,
    {
        if !hash_eq(&atts[i].witnessed_root, trusted_root) {
            return Err(VerifyError::Equivocation);
        }
        i = i + 1;
    }
    let mut i: usize = 0;
    while i < n
        invariant
            n == atts@.len(),
            i <= n,
            forall|j: int| 0 <= j < i ==> spec_receipt_included(*rc, #[trigger] atts@[j], *trusted_root),
        decreases n - i,
    {
        if !verify_inclusion(rc, &atts[i].inclusion, trusted_root) {
            return Err(VerifyError::Omission);
        }
        i = i + 1;
    }
    match bundle.verify(executor_key) {
        Ok(()) => {},
        Err(e) => return Err(VerifyError::Threshold(e)),
    }
    let mut i: usize = 0;
    while i < n
        invariant
            n == atts@.len(),
            i <= n,
            forall|j: int| 0 <= j < i ==> spec_anchored(*policy, chain_keys@, #[trigger] atts@[j]),
        decreases n - i,
    {
        if !attester_is_anchored(chain_keys, &atts[i], policy) {
            return Err(VerifyError::AttesterNotAnchored);
        }
        i = i + 1;
    }
    let ghost ad = rc.action_digest;
    assert(atts@.subrange(0, n as int) =~= atts@);
    let mut i: usize = 0;
    while i < n
        invariant
            n == atts@.len(),
            i <= n,
            ad == rc.action_digest,
            spec_digest_fault(atts@, ad) == spec_digest_fault(atts@.subrange(i as int, n as int), ad),
        decreases n - i,
    {
        assert(atts@.subrange(i as int, n as int).drop_first() =~= atts@.subrange(i + 1, n as int));
        if !hash_eq(&atts[i].outcome_digest, &rc.action_digest) {
            return Err(VerifyError::OutcomeMismatch);
        }
        if !hash_eq(&atts[i].requested_action_digest, &rc.action_digest) {
            return Err(VerifyError::ActionDigestInconsistent);
        }
        i = i + 1;
    }
    assert(atts@.subrange(n as int, n as int).len() == 0);
    Ok(scope)
}

/// An accepted action is sound: its receipt and attestation bind this chain,
/// the attestation commits to the trusted root under which the receipt is
/// included, its attester is not the executor, its signature verifies, its
/// attester is anchored for its role, and it attests exactly the recorded
/// action as both requested and done.
pub proof fn lemma_accepted_action_is_sound(
    action: VerifiableAction,
    chain_digest: Digest,
    executor_key: PublicKey,
    chain_keys: Seq<PublicKey>,
    trusted_root: Digest,
    policy: VerifyPolicy,
)
    requires
        spec_gates(action, chain_digest, executor_key, chain_keys, trusted_root, policy) == Some(
            Ok::<(), VerifyError>(()),
        ),
    ensures
        action.action_receipt.chain_digest == chain_digest,
        action.completion.chain_digest == chain_digest,
        action.completion.witnessed_root == trusted_root,
        spec_receipt_included(action.action_receipt, action.completion, trusted_root),
        action.completion.inclusion.leaf_index < action.completion.inclusion.tree_size,
        spec_fold(
            spec_hash_leaf(spec_canonical_bytes(action.action_receipt)),
            path_view(action.completion.inclusion.path@),
        ) == trusted_root@,
        !same_key(action.completion.attester_key, executor_key),
        !(action.completion.attester_key.algorithm == executor_key.algorithm
            && action.completion.attester_key.bytes@ == executor_key.bytes@),
        action.completion.spec_signature_outcome() == Ok::<bool, crate::crypto::CryptoError>(true),
        spec_anchored(policy, chain_keys, action.completion),
        (action.completion.role == AttesterRole::CounterSigned ==> policy.allow_counter_signed && exists|i: int|
                0 <= i < chain_keys.len() && (#[trigger] chain_keys[i]).algorithm == action.completion.attester_key.algorithm
                    && chain_keys[i].bytes@ == action.completion.attester_key.bytes@),
            (action.completion.role == AttesterRole::ThirdParty ==> exists|i: int|
                0 <= i < policy.trusted_attesters@.len() && (#[trigger] policy.trusted_attesters@[i]).algorithm
                    == action.completion.attester_key.algorithm && policy.trusted_attesters@[i].bytes@ == action.completion.attester_key.bytes@),
        action.completion.outcome_digest == action.action_receipt.action_digest,
        action.completion.requested_action_digest == action.action_receipt.action_digest,
{
}

/// An accepted k-of-n action is sound: the bundle's declared threshold meets
/// the verifier's bar, at least that many attestations are independent of the
/// executor and validly signed, and every attestation binds this chain,
/// commits to the trusted root under which the receipt is included, has an
/// anchored attester, and attests exactly the recorded action.
pub proof fn lemma_accepted_threshold_action_is_sound(
    action: VerifiableThresholdAction,
    chain_digest: Digest,
    executor_key: PublicKey,
    chain_keys: Seq<PublicKey>,
    trusted_root: Digest,
    required_threshold: usize,
    policy: VerifyPolicy,
)
    requires
        spec_threshold_gates(action, chain_digest, executor_key, chain_keys, trusted_root, required_threshold, policy)
            is Ok,
    ensures
        action.completion.threshold >= required_threshold,
        crate::attestation::spec_accepted_count(action.completion.attestations@, executor_key)
            >= action.completion.threshold,
        action.action_receipt.chain_digest == chain_digest,
        action.completion.threshold <= action.completion.attestations@.len(),
        action.completion.threshold >= 1 ==> exists|i: int|
            0 <= i < action.completion.attestations@.len() && !((#[trigger] action.completion.attestations@[i]).attester_key.algorithm
                == executor_key.algorithm && action.completion.attestations@[i].attester_key.bytes@ == executor_key.bytes@)
                && action.completion.attestations@[i].spec_signature_outcome() == Ok::<bool, crate::crypto::CryptoError>(true),
        forall|n: int|
            0 <= n < action.completion.attestations@.len() ==> {
                &&& ((#[trigger] action.completion.attestations@[n]).role == AttesterRole::CounterSigned ==> policy.allow_counter_signed && exists|i: int|
                    0 <= i < chain_keys.len() && (#[trigger] chain_keys[i]).algorithm == action.completion.attestations@[n].attester_key.algorithm
                        && chain_keys[i].bytes@ == action.completion.attestations@[n].attester_key.bytes@)
                &&& (action.completion.attestations@[n].role == AttesterRole::ThirdParty ==> exists|i: int|
                    0 <= i < policy.trusted_attesters@.len() && (#[trigger] policy.trusted_attesters@[i]).algorithm
                        == action.completion.attestations@[n].attester_key.algorithm && policy.trusted_attesters@[i].bytes@ == action.completion.attestations@[n].attester_key.bytes@)
            },
        forall|i: int|
            0 <= i < action.completion.attestations@.len() ==> {
                let a = #[trigger] action.completion.attestations@[i];
                &&& a.chain_digest == chain_digest
                &&& a.witnessed_root == trusted_root
                &&& spec_receipt_included(action.action_receipt, a, trusted_root)
                &&& a.inclusion.leaf_index < a.inclusion.tree_size
                &&& spec_fold(spec_hash_leaf(spec_canonical_bytes(action.action_receipt)), path_view(a.inclusion.path@))
                    == trusted_root@
                &&& spec_anchored(policy, chain_keys, a)
                &&& a.outcome_digest == action.action_receipt.action_digest
                &&& a.requested_action_digest == action.action_receipt.action_digest
            },
{
    let atts = action.completion.attestations@;
    let ad = action.action_receipt.action_digest;
    lemma_accepted_count_witness(atts, executor_key);
    assert forall|i: int| 0 <= i < atts.len() implies (#[trigger] atts[i]).outcome_digest == ad
        && atts[i].requested_action_digest == ad by {
        lemma_no_digest_fault(atts, ad, i);
    }
}

/// At most every attestation is counted, and a positive count has an
/// accepted attestation behind it.
proof fn lemma_accepted_count_witness(atts: Seq<CompletionAttestation>, executor_key: PublicKey)
    ensures
        crate::attestation::spec_accepted_count(atts, executor_key) <= atts.len(),
        crate::attestation::spec_accepted_count(atts, executor_key) > 0 ==> exists|i: int|
            0 <= i < atts.len() && (#[trigger] atts[i]).spec_accepted(executor_key),
    decreases atts.len(),
{
    if atts.len() > 0 {
        lemma_accepted_count_witness(atts.drop_last(), executor_key);
        if crate::attestation::spec_accepted_count(atts.drop_last(), executor_key) > 0 {
            let i = choose|i: int| 0 <= i < atts.drop_last().len() && (#[trigger] atts.drop_last()[i]).spec_accepted(executor_key);
            assert(atts[i] == atts.drop_last()[i]);
        } else if atts.last().spec_accepted(executor_key) {
            assert(atts[atts.len() - 1] == atts.last());
        }
    }
}

proof fn lemma_no_digest_fault(atts: Seq<CompletionAttestation>, ad: Digest, i: int)
    requires
        spec_digest_fault(atts, ad) is None,
        0 <= i < atts.len(),
    ensures
        atts[i].outcome_digest == ad,
        atts[i].requested_action_digest == ad,
    decreases atts.len(),
{
    if i > 0 {
        lemma_no_digest_fault(atts.drop_first(), ad, i - 1);
    }
}

} // verus!
