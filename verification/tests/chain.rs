use indexone::chain::{Chain, ChainError, DelegationBlock, Principal, RootBlock, Scope};
use indexone::crypto::{Algorithm, Signature};

fn sample_principal(id: &str) -> Principal {
    Principal {
        id: id.to_string(),
        display_name: id.to_string(),
    }
}

fn sample_scope() -> Scope {
    Scope {
        permissions: vec!["payments.charge".to_string()],
        budget: Some(10_000),
        currency: Some("USD".to_string()),
        max_depth: 3,
        expires_at: 4_102_444_800,
    }
}

fn sample_root() -> RootBlock {
    RootBlock {
        principal: sample_principal("human:alice"),
        scope: sample_scope(),
        signature: Signature {
            algorithm: Algorithm::Ed25519,
            bytes: vec![],
        },
    }
}

#[test]
fn root_block_carries_required_fields() {
    let root = sample_root();
    assert_eq!(root.scope.max_depth, 3);
    assert!(root.scope.expires_at > 0);
}

#[test]
fn delegation_block_purpose_is_a_required_field() {
    let block = DelegationBlock {
        from: sample_principal("agent:a@org1"),
        to: sample_principal("agent:b@org2"),
        scope: sample_scope(),
        purpose: "book a flight under $500".to_string(),
        prev_block_hash: vec![0u8; 32],
        signature: Signature {
            algorithm: Algorithm::Ed25519,
            bytes: vec![],
        },
    };
    assert!(!block.purpose.is_empty());
}

#[test]
fn verify_is_unimplemented_stub() {
    let chain = Chain {
        root: sample_root(),
        delegations: vec![],
    };
    let err = chain.verify().unwrap_err();
    assert!(matches!(err, ChainError::NotImplemented(_)));
}

#[test]
fn new_and_attenuate_are_unimplemented_stubs() {
    assert_eq!(
        Chain::new(sample_root()).unwrap_err(),
        ChainError::NotImplemented("Chain::new")
    );
    let mut chain = Chain {
        root: sample_root(),
        delegations: vec![],
    };
    assert_eq!(
        chain
            .attenuate(sample_principal("agent:a"), sample_scope(), "x".into(), Algorithm::Ed25519)
            .unwrap_err(),
        ChainError::NotImplemented("Chain::attenuate")
    );
    assert!(chain.delegations.is_empty());
}
