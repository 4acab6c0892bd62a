use indexone::attestation::{AttesterRole, CompletionAttestation, ThresholdAttestation, ThresholdError};
use indexone::chain::{Chain, ChainError, Principal, RootBlock, Scope};
use indexone::crypto::{Algorithm, PublicKey, Signature, Signer};
use indexone::ed25519::Ed25519Signer;
use indexone::policy::{
    verify, verify_threshold, VerifiableAction, VerifiableThresholdAction, VerifyError, VerifyPolicy,
};
use indexone::witness::{ActionReceipt, Digest, InclusionProof, Witness};

fn principal(id: &str) -> Principal {
    Principal {
        id: id.to_string(),
        display_name: id.to_string(),
    }
}

fn scope(budget: u64, depth: u32) -> Scope {
    Scope {
        permissions: vec!["payments.charge".into()],
        budget: Some(budget),
        currency: Some("USD".to_string()),
        max_depth: depth,
        expires_at: 4_102_444_800,
    }
}

/// Human -> A -> B -> C; C is the executor. The chain's own verification,
/// digest and party keys are what the gates are given.
struct World {
    chain: Chain,
    digest: Digest,
    keys: Vec<PublicKey>,
    executor: Ed25519Signer,
    delegator: Ed25519Signer,
    notary: Ed25519Signer,
}

fn build_chain() -> World {
    let human = Ed25519Signer::from_seed([1u8; 32]);
    let a = Ed25519Signer::from_seed([2u8; 32]);
    let b = Ed25519Signer::from_seed([3u8; 32]);
    let c = Ed25519Signer::from_seed([4u8; 32]);
    let chain = Chain {
        root: RootBlock {
            principal: principal("human:alice"),
            scope: scope(10_000, 3),
            signature: Signature {
                algorithm: Algorithm::Ed25519,
                bytes: vec![],
            },
        },
        delegations: vec![],
    };
    World {
        chain,
        digest: [0x5Cu8; 32],
        keys: vec![human.public_key(), a.public_key(), b.public_key(), c.public_key()],
        executor: c,
        delegator: b,
        notary: Ed25519Signer::from_seed([9u8; 32]),
    }
}

fn effective() -> Result<Scope, ChainError> {
    Ok(scope(4_000, 0))
}

fn trusting(world: &World) -> VerifyPolicy {
    VerifyPolicy::third_party(vec![world.notary.public_key()])
}

fn record(world: &World, action_digest: Digest) -> (ActionReceipt, InclusionProof, Digest) {
    let mut w = Witness::new();
    let receipt = ActionReceipt {
        chain_digest: world.digest,
        action_digest,
        nonce: [0xAB; 32],
        prev_root: w.root(),
    };
    let idx = w.append(&receipt);
    let proof = w.inclusion_proof(idx).unwrap();
    (receipt, proof, w.root())
}

fn run(world: &World, va: &VerifiableAction, root: &Digest, policy: &VerifyPolicy) -> Result<Scope, VerifyError> {
    verify(
        va,
        effective(),
        &world.digest,
        &world.executor.public_key(),
        &world.keys,
        root,
        policy,
    )
}

fn attest(signer: &Ed25519Signer, world: &World, req: Digest, out: Digest, root: Digest, proof: InclusionProof) -> CompletionAttestation {
    CompletionAttestation::attest(signer, principal("attester:notary"), world.digest, req, out, root, proof).unwrap()
}

#[test]
fn honest_action_verifies() {
    let world = build_chain();
    let action = [42u8; 32];
    let (receipt, proof, root) = record(&world, action);
    let completion = attest(&world.notary, &world, action, action, root, proof);
    let va = VerifiableAction {
        chain: world.chain.clone(),
        action_receipt: receipt,
        completion,
    };
    assert_eq!(run(&world, &va, &root, &trusting(&world)), Ok(scope(4_000, 0)));
}

#[test]
fn chain_failure_comes_first() {
    let world = build_chain();
    let action = [42u8; 32];
    let (receipt, proof, root) = record(&world, action);
    let completion = attest(&world.notary, &world, action, action, root, proof);
    let va = VerifiableAction {
        chain: world.chain.clone(),
        action_receipt: receipt,
        completion,
    };
    let r = verify(
        &va,
        world.chain.verify(),
        &world.digest,
        &world.executor.public_key(),
        &world.keys,
        &root,
        &trusting(&world),
    );
    assert_eq!(r, Err(VerifyError::Chain(ChainError::NotImplemented("Chain::verify"))));
}

#[test]
fn omitted_action_is_invalid_even_with_valid_signatures() {
    let world = build_chain();
    let (_recorded, proof, root) = record(&world, [42u8; 32]);
    let omitted = [99u8; 32];
    let omitted_receipt = ActionReceipt {
        chain_digest: world.digest,
        action_digest: omitted,
        nonce: [0xAB; 32],
        prev_root: [0u8; 32],
    };
    let completion = attest(&world.notary, &world, omitted, omitted, root, proof);
    let va = VerifiableAction {
        chain: world.chain.clone(),
        action_receipt: omitted_receipt,
        completion,
    };
    assert_eq!(run(&world, &va, &root, &trusting(&world)).unwrap_err(), VerifyError::Omission);
}

#[test]
fn self_reported_completion_is_invalid() {
    let world = build_chain();
    let action = [42u8; 32];
    let (receipt, proof, root) = record(&world, action);
    let completion = attest(&world.executor, &world, action, action, root, proof);
    let va = VerifiableAction {
        chain: world.chain.clone(),
        action_receipt: receipt,
        completion,
    };
    assert!(matches!(
        run(&world, &va, &root, &trusting(&world)).unwrap_err(),
        VerifyError::Attestation(_)
    ));
}

#[test]
fn sockpuppet_key_attestation_is_rejected() {
    let world = build_chain();
    let action = [42u8; 32];
    let (receipt, proof, root) = record(&world, action);
    let sockpuppet = Ed25519Signer::from_seed([66u8; 32]);
    let completion = attest(&sockpuppet, &world, action, action, root, proof);
    let va = VerifiableAction {
        chain: world.chain.clone(),
        action_receipt: receipt,
        completion,
    };
    assert_eq!(
        run(&world, &va, &root, &trusting(&world)).unwrap_err(),
        VerifyError::AttesterNotAnchored
    );
}

#[test]
fn counter_signed_by_real_delegator_verifies() {
    let world = build_chain();
    let action = [42u8; 32];
    let (receipt, proof, root) = record(&world, action);
    let completion = CompletionAttestation::attest_as(
        AttesterRole::CounterSigned,
        &world.delegator,
        principal("agent:b@org2"),
        world.digest,
        action,
        action,
        root,
        proof,
    )
    .unwrap();
    let va = VerifiableAction {
        chain: world.chain.clone(),
        action_receipt: receipt,
        completion,
    };
    assert!(run(&world, &va, &root, &VerifyPolicy::counter_signed()).is_ok());
    // counter-signing must be allowed by the policy
    assert_eq!(
        run(&world, &va, &root, &VerifyPolicy::default()).unwrap_err(),
        VerifyError::AttesterNotAnchored
    );
}

#[test]
fn equivocated_root_is_invalid() {
    let world = build_chain();
    let action = [42u8; 32];
    let (receipt, proof, root) = record(&world, action);
    let completion = attest(&world.notary, &world, action, action, root, proof);
    let va = VerifiableAction {
        chain: world.chain.clone(),
        action_receipt: receipt,
        completion,
    };
    assert_eq!(
        run(&world, &va, &[123u8; 32], &trusting(&world)).unwrap_err(),
        VerifyError::Equivocation
    );
}

#[test]
fn dishonest_outcome_is_invalid() {
    let world = build_chain();
    let logged = [42u8; 32];
    let (receipt, proof, root) = record(&world, logged);
    let completion = attest(&world.notary, &world, logged, [7u8; 32], root, proof);
    let va = VerifiableAction {
        chain: world.chain.clone(),
        action_receipt: receipt,
        completion,
    };
    assert_eq!(
        run(&world, &va, &root, &trusting(&world)).unwrap_err(),
        VerifyError::OutcomeMismatch
    );
}

#[test]
fn spliced_receipt_from_another_chain_is_rejected() {
    let world = build_chain();
    let action = [42u8; 32];
    let (mut receipt, proof, root) = record(&world, action);
    receipt.chain_digest[0] ^= 0xFF;
    let completion = attest(&world.notary, &world, action, action, root, proof);
    let va = VerifiableAction {
        chain: world.chain.clone(),
        action_receipt: receipt,
        completion,
    };
    assert_eq!(
        run(&world, &va, &root, &trusting(&world)).unwrap_err(),
        VerifyError::ChainBindingMismatch
    );
}

#[test]
fn spliced_attestation_from_another_chain_is_rejected() {
    let world = build_chain();
    let action = [42u8; 32];
    let (receipt, proof, root) = record(&world, action);
    let mut foreign = world.digest;
    foreign[0] ^= 0xFF;
    let completion = CompletionAttestation::attest(
        &world.notary,
        principal("agent:b@org2"),
        foreign,
        action,
        action,
        root,
        proof,
    )
    .unwrap();
    let va = VerifiableAction {
        chain: world.chain.clone(),
        action_receipt: receipt,
        completion,
    };
    assert_eq!(
        run(&world, &va, &root, &trusting(&world)).unwrap_err(),
        VerifyError::ChainBindingMismatch
    );
}

#[test]
fn requested_action_differs_from_witnessed_is_rejected() {
    let world = build_chain();
    let witnessed = [42u8; 32];
    let (receipt, proof, root) = record(&world, witnessed);
    let completion = attest(&world.notary, &world, [99u8; 32], witnessed, root, proof);
    let va = VerifiableAction {
        chain: world.chain.clone(),
        action_receipt: receipt,
        completion,
    };
    assert_eq!(
        run(&world, &va, &root, &trusting(&world)).unwrap_err(),
        VerifyError::ActionDigestInconsistent
    );
}

fn third_party() -> Ed25519Signer {
    Ed25519Signer::from_seed([10u8; 32])
}

fn run_threshold(world: &World, vta: &VerifiableThresholdAction, root: &Digest, k: usize, policy: &VerifyPolicy) -> Result<Scope, VerifyError> {
    verify_threshold(
        vta,
        effective(),
        &world.digest,
        &world.executor.public_key(),
        &world.keys,
        root,
        k,
        policy,
    )
}

#[test]
fn threshold_two_of_two_independent_verifies() {
    let world = build_chain();
    let action = [42u8; 32];
    let (receipt, proof, root) = record(&world, action);
    let a1 = attest(&world.notary, &world, action, action, root, proof.clone());
    let a2 = attest(&third_party(), &world, action, action, root, proof);
    let policy = VerifyPolicy::third_party(vec![world.notary.public_key(), third_party().public_key()]);
    let vta = VerifiableThresholdAction {
        chain: world.chain.clone(),
        action_receipt: receipt,
        completion: ThresholdAttestation {
            attestations: vec![a1, a2],
            threshold: 2,
        },
    };
    let effective = run_threshold(&world, &vta, &root, 2, &policy).unwrap();
    assert_eq!(effective.budget, Some(4_000));
    // the second attester is not trusted by a narrower policy
    assert_eq!(
        run_threshold(&world, &vta, &root, 2, &trusting(&world)).unwrap_err(),
        VerifyError::AttesterNotAnchored
    );
}

#[test]
fn threshold_below_verifier_bar_is_rejected() {
    let world = build_chain();
    let action = [42u8; 32];
    let (receipt, proof, root) = record(&world, action);
    let a1 = attest(&world.notary, &world, action, action, root, proof);
    let vta = VerifiableThresholdAction {
        chain: world.chain.clone(),
        action_receipt: receipt,
        completion: ThresholdAttestation {
            attestations: vec![a1],
            threshold: 1,
        },
    };
    assert_eq!(
        run_threshold(&world, &vta, &root, 2, &trusting(&world)).unwrap_err(),
        VerifyError::InsufficientAttestation {
            required: 2,
            declared: 1,
        }
    );
}

#[test]
fn threshold_with_a_self_report_lacks_independence() {
    let world = build_chain();
    let action = [42u8; 32];
    let (receipt, proof, root) = record(&world, action);
    let independent = attest(&world.notary, &world, action, action, root, proof.clone());
    let self_report = attest(&world.executor, &world, action, action, root, proof);
    let vta = VerifiableThresholdAction {
        chain: world.chain.clone(),
        action_receipt: receipt,
        completion: ThresholdAttestation {
            attestations: vec![independent, self_report],
            threshold: 2,
        },
    };
    assert_eq!(
        run_threshold(&world, &vta, &root, 2, &trusting(&world)).unwrap_err(),
        VerifyError::Threshold(ThresholdError::NotEnoughIndependentAttestations { have: 1, need: 2 })
    );
}

#[test]
fn threshold_gates_check_every_member() {
    let world = build_chain();
    let action = [42u8; 32];
    let (receipt, proof, root) = record(&world, action);
    let policy = VerifyPolicy::third_party(vec![world.notary.public_key(), third_party().public_key()]);
    let good = attest(&world.notary, &world, action, action, root, proof.clone());
    let mk = |second: CompletionAttestation| VerifiableThresholdAction {
        chain: world.chain.clone(),
        action_receipt: receipt,
        completion: ThresholdAttestation {
            attestations: vec![good.clone(), second],
            threshold: 2,
        },
    };
    let other_root = attest(&third_party(), &world, action, action, [1u8; 32], proof.clone());
    assert_eq!(
        run_threshold(&world, &mk(other_root), &root, 2, &policy).unwrap_err(),
        VerifyError::Equivocation
    );
    let mut bad_proof = proof.clone();
    bad_proof.path.push(bad_proof.path.first().cloned().unwrap_or(indexone::witness::PathStep {
        sibling: [0u8; 32],
        sibling_is_left: false,
    }));
    let unproven = attest(&third_party(), &world, action, action, root, bad_proof);
    assert_eq!(
        run_threshold(&world, &mk(unproven), &root, 2, &policy).unwrap_err(),
        VerifyError::Omission
    );
    let wrong_outcome = attest(&third_party(), &world, action, [8u8; 32], root, proof);
    // the bundle no longer shares one binding
    assert_eq!(
        run_threshold(&world, &mk(wrong_outcome), &root, 2, &policy).unwrap_err(),
        VerifyError::Threshold(ThresholdError::InconsistentBinding)
    );
}
