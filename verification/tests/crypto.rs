use ed25519_dalek::Signer as _;
use indexone::crypto::{verify_signature, Algorithm, CryptoError, PublicKey, Signature, Signer};
use indexone::ed25519::{seed_from_hex, Ed25519Signer};
use indexone::hybrid::{decode_two, frame_two, read_component, HybridSigner};
use indexone::mldsa::MlDsa87Signer;

#[test]
fn algorithm_is_copy() {
    fn assert_copy<T: Copy>() {}
    assert_copy::<Algorithm>();
    let a = Algorithm::Hybrid;
    let _b = a;
    assert_eq!(a, Algorithm::Hybrid);
}

#[test]
fn algorithm_mismatch_is_err_not_false() {
    let sig = Signature {
        algorithm: Algorithm::Ed25519,
        bytes: vec![0u8; 64],
    };
    let pk = PublicKey {
        algorithm: Algorithm::MlDsa87,
        bytes: vec![0u8; 2592],
    };
    assert!(matches!(
        verify_signature(b"payload", &sig, &pk),
        Err(CryptoError::AlgorithmMismatch { .. })
    ));
}

#[test]
fn ed25519_round_trips() {
    let signer = Ed25519Signer::generate().unwrap();
    let sig = signer.sign(b"payload").unwrap();
    assert_eq!(sig.algorithm, Algorithm::Ed25519);
    assert!(verify_signature(b"payload", &sig, &signer.public_key()).unwrap());
}

#[test]
fn ed25519_tamper_fails() {
    let signer = Ed25519Signer::generate().unwrap();
    let mut sig = signer.sign(b"payload").unwrap();
    sig.bytes[0] ^= 0x01;
    assert!(!verify_signature(b"payload", &sig, &signer.public_key()).unwrap());
}

#[test]
fn ed25519_wrong_payload_fails() {
    let signer = Ed25519Signer::generate().unwrap();
    let sig = signer.sign(b"payload").unwrap();
    assert!(!verify_signature(b"other", &sig, &signer.public_key()).unwrap());
}

#[test]
fn ed25519_malformed_key_is_err() {
    let signer = Ed25519Signer::generate().unwrap();
    let sig = signer.sign(b"payload").unwrap();
    let bad_key = PublicKey {
        algorithm: Algorithm::Ed25519,
        bytes: vec![0u8; 10],
    };
    assert!(matches!(
        verify_signature(b"payload", &sig, &bad_key),
        Err(CryptoError::MalformedKey(Algorithm::Ed25519))
    ));
}

#[test]
fn ed25519_from_seed_is_deterministic_rfc8032_vector() {
    // RFC 8032 section 7.1, TEST 1: secret key 9d61b1...7f60, public key d75a98...511a.
    let seed: [u8; 32] = hex::decode("9d61b19deffd5a60ba844af492ec2cc44449c5697b326919703bac031cae7f60")
        .unwrap()
        .try_into()
        .unwrap();
    let signer = Ed25519Signer::from_seed(seed);
    assert_eq!(
        signer.public_key().bytes,
        hex::decode("d75a980182b10ab7d54bfed3c964073a0ee172f3daa62325af021a68f707511a").unwrap()
    );
    let sig = signer.sign(b"").unwrap();
    assert_eq!(
        sig.bytes,
        hex::decode("e5564300c360ac729086e2cc806e828a84877f1eb8e5d974d873e065224901555fb8821590a33bacc61e39701cf9b46bd25bf5f0595bbe24655141438e7a100b").unwrap()
    );
}

#[test]
fn ed25519_wrong_length_signature_is_err() {
    let signer = Ed25519Signer::from_seed([3u8; 32]);
    let sig = Signature {
        algorithm: Algorithm::Ed25519,
        bytes: vec![0u8; 63],
    };
    assert!(matches!(
        verify_signature(b"payload", &sig, &signer.public_key()),
        Err(CryptoError::MalformedSignature(Algorithm::Ed25519))
    ));
}

#[test]
fn mldsa_round_trips() {
    let signer = MlDsa87Signer::generate().unwrap();
    let sig = signer.sign(b"payload").unwrap();
    assert_eq!(sig.algorithm, Algorithm::MlDsa87);
    assert!(verify_signature(b"payload", &sig, &signer.public_key()).unwrap());
}

#[test]
fn mldsa_tamper_fails() {
    let signer = MlDsa87Signer::generate().unwrap();
    let mut sig = signer.sign(b"payload").unwrap();
    sig.bytes[0] ^= 0x01;
    assert!(!verify_signature(b"payload", &sig, &signer.public_key()).unwrap());
}

#[test]
fn mldsa_wrong_payload_fails() {
    let signer = MlDsa87Signer::generate().unwrap();
    let sig = signer.sign(b"payload").unwrap();
    assert!(!verify_signature(b"other", &sig, &signer.public_key()).unwrap());
}

#[test]
fn mldsa_malformed_signature_is_err() {
    let signer = MlDsa87Signer::generate().unwrap();
    let bad_sig = Signature {
        algorithm: Algorithm::MlDsa87,
        bytes: vec![0u8; 10],
    };
    assert!(matches!(
        verify_signature(b"payload", &bad_sig, &signer.public_key()),
        Err(CryptoError::MalformedSignature(Algorithm::MlDsa87))
    ));
}

#[test]
fn mldsa_malformed_key_is_err() {
    let sig = Signature {
        algorithm: Algorithm::MlDsa87,
        bytes: vec![0u8; 4627],
    };
    let key = PublicKey {
        algorithm: Algorithm::MlDsa87,
        bytes: vec![0u8; 100],
    };
    assert!(matches!(
        verify_signature(b"payload", &sig, &key),
        Err(CryptoError::MalformedKey(Algorithm::MlDsa87))
    ));
}

const PAYLOAD: &[u8] = b"delegation block canonical bytes";

fn hybrid_signer() -> HybridSigner<Ed25519Signer, MlDsa87Signer> {
    let classical = Box::new(Ed25519Signer::generate().unwrap());
    let post_quantum = Box::new(MlDsa87Signer::generate().unwrap());
    HybridSigner::new(classical, post_quantum).unwrap()
}

#[test]
fn hybrid_round_trips_when_both_components_valid() {
    let signer = hybrid_signer();
    let sig = signer.sign(PAYLOAD).unwrap();
    assert_eq!(sig.algorithm, Algorithm::Hybrid);
    assert!(verify_signature(PAYLOAD, &sig, &signer.public_key()).unwrap());
}

#[test]
fn tampering_classical_component_fails() {
    let signer = hybrid_signer();
    let sig = signer.sign(PAYLOAD).unwrap();
    let comps = decode_two(&sig.bytes).unwrap();

    let mut tampered0 = comps[0].1.to_vec();
    tampered0[0] ^= 0x01;
    let bytes = frame_two(&comps[0].0, &tampered0, &comps[1].0, comps[1].1).unwrap();
    let tampered = Signature {
        algorithm: Algorithm::Hybrid,
        bytes,
    };
    assert!(!verify_signature(PAYLOAD, &tampered, &signer.public_key()).unwrap());
}

#[test]
fn tampering_post_quantum_component_fails() {
    let signer = hybrid_signer();
    let sig = signer.sign(PAYLOAD).unwrap();
    let comps = decode_two(&sig.bytes).unwrap();

    let mut tampered1 = comps[1].1.to_vec();
    tampered1[0] ^= 0x01;
    let bytes = frame_two(&comps[0].0, comps[0].1, &comps[1].0, &tampered1).unwrap();
    let tampered = Signature {
        algorithm: Algorithm::Hybrid,
        bytes,
    };
    assert!(!verify_signature(PAYLOAD, &tampered, &signer.public_key()).unwrap());
}

#[test]
fn hybrid_wrong_payload_fails() {
    let signer = hybrid_signer();
    let sig = signer.sign(PAYLOAD).unwrap();
    assert!(!verify_signature(b"a different payload", &sig, &signer.public_key()).unwrap());
}

#[test]
fn missing_component_is_err() {
    let signer = hybrid_signer();
    let sig = signer.sign(PAYLOAD).unwrap();
    let (_, rest) = read_component(&sig.bytes).unwrap();
    let first_len = sig.bytes.len() - rest.len();
    let truncated = Signature {
        algorithm: Algorithm::Hybrid,
        bytes: sig.bytes[..first_len].to_vec(),
    };
    assert!(matches!(
        verify_signature(PAYLOAD, &truncated, &signer.public_key()),
        Err(CryptoError::MalformedFraming(_))
    ));
}

#[test]
fn nesting_hybrid_is_unsupported() {
    let inner = Box::new(hybrid_signer());
    let other = Box::new(Ed25519Signer::generate().unwrap());
    assert!(matches!(
        HybridSigner::new(inner, other),
        Err(CryptoError::UnsupportedAlgorithm(Algorithm::Hybrid))
    ));
}

#[test]
fn framing_layout_is_tag_length_payload() {
    let bytes = frame_two(&Algorithm::Ed25519, &[0xaa, 0xbb], &Algorithm::MlDsa87, &[0xcc]).unwrap();
    assert_eq!(bytes, vec![0, 0, 0, 0, 2, 0xaa, 0xbb, 1, 0, 0, 0, 1, 0xcc]);
    let comps = decode_two(&bytes).unwrap();
    assert_eq!(comps[0], (Algorithm::Ed25519, &[0xaa, 0xbb][..]));
    assert_eq!(comps[1], (Algorithm::MlDsa87, &[0xcc][..]));
}

#[test]
fn framing_errors_are_typed() {
    assert_eq!(
        decode_two(&[0, 0, 0]).unwrap_err(),
        CryptoError::MalformedFraming("truncated component header")
    );
    assert_eq!(
        decode_two(&[7, 0, 0, 0, 0, 0, 0, 0, 0, 0]).unwrap_err(),
        CryptoError::MalformedFraming("unknown component algorithm tag")
    );
    assert_eq!(
        decode_two(&[0, 0, 0, 0, 9, 1]).unwrap_err(),
        CryptoError::MalformedFraming("truncated component payload")
    );
    assert_eq!(
        decode_two(&[0, 0, 0, 0, 0, 1, 0, 0, 0, 0, 5]).unwrap_err(),
        CryptoError::MalformedFraming("trailing bytes after two components")
    );
    assert_eq!(
        frame_two(&Algorithm::Hybrid, &[], &Algorithm::Ed25519, &[]).unwrap_err(),
        CryptoError::UnsupportedAlgorithm(Algorithm::Hybrid)
    );
}

#[test]
fn hybrid_component_tag_mismatch_is_err() {
    let sig = Signature {
        algorithm: Algorithm::Hybrid,
        bytes: frame_two(&Algorithm::MlDsa87, &[1], &Algorithm::Ed25519, &[2]).unwrap(),
    };
    let key = PublicKey {
        algorithm: Algorithm::Hybrid,
        bytes: frame_two(&Algorithm::Ed25519, &[1], &Algorithm::MlDsa87, &[2]).unwrap(),
    };
    assert_eq!(
        verify_signature(PAYLOAD, &sig, &key).unwrap_err(),
        CryptoError::AlgorithmMismatch {
            signature: Algorithm::MlDsa87,
            public_key: Algorithm::Ed25519
        }
    );
}

#[test]
fn hybrid_of_boxed_trait_objects_round_trips() {
    let classical: Box<dyn Signer> = Box::new(Ed25519Signer::from_seed([3u8; 32]));
    let post_quantum: Box<dyn Signer> = Box::new(MlDsa87Signer::generate().unwrap());
    let signer: HybridSigner = HybridSigner::new(classical, post_quantum).unwrap();
    let sig = signer.sign(PAYLOAD).unwrap();
    assert_eq!(sig.algorithm, Algorithm::Hybrid);
    assert!(verify_signature(PAYLOAD, &sig, &signer.public_key()).unwrap());
}

#[test]
fn ed25519_key_and_signature_match_rfc8032() {
    let seed = [42u8; 32];
    let signer = Ed25519Signer::from_seed(seed);
    let reference = ed25519_dalek::SigningKey::from_bytes(&seed);
    assert_eq!(
        signer.public_key().bytes,
        reference.verifying_key().to_bytes().to_vec()
    );
    let sig = signer.sign(b"payload").unwrap();
    assert_eq!(sig.bytes, reference.sign(b"payload").to_bytes().to_vec());
    assert_ne!(signer.public_key().bytes, seed.to_vec());
}

#[test]
fn hybrid_of_deterministic_signers_always_signs() {
    let h = HybridSigner::new(
        Box::new(Ed25519Signer::from_seed([3u8; 32])),
        Box::new(Ed25519Signer::from_seed([4u8; 32])),
    )
    .unwrap();
    for payload in [&b""[..], b"a", &[7u8; 1000][..]] {
        let sig = h.sign(payload).expect("both components always sign");
        assert_eq!(sig.bytes.len(), 10 + 64 + 64);
        assert_eq!(verify_signature(payload, &sig, &h.public_key()), Ok(true));
    }
}

#[test]
fn hybrid_signature_frames_the_component_signatures() {
    let c = Ed25519Signer::from_seed([3u8; 32]);
    let q = Ed25519Signer::from_seed([4u8; 32]);
    let expected_c = c.sign(b"msg").unwrap();
    let expected_q = q.sign(b"msg").unwrap();
    let h = HybridSigner::new(Box::new(c), Box::new(q)).unwrap();
    let sig = h.sign(b"msg").unwrap();
    assert_eq!(sig.algorithm, Algorithm::Hybrid);
    assert_eq!(
        sig.bytes,
        frame_two(&expected_c.algorithm, &expected_c.bytes, &expected_q.algorithm, &expected_q.bytes).unwrap()
    );
}

#[test]
fn seed_from_hex_parses_exactly_32_bytes() {
    let lower = "0f".repeat(32);
    assert_eq!(seed_from_hex(&lower), Ok([0x0fu8; 32]));
    let mixed = "aB".repeat(32);
    assert_eq!(seed_from_hex(&mixed), Ok([0xabu8; 32]));
    let seed = seed_from_hex(&"01".repeat(32)).unwrap();
    assert_eq!(
        Ed25519Signer::from_seed(seed).public_key(),
        Ed25519Signer::from_seed([1u8; 32]).public_key()
    );
    for short in ["", "00", &"ff".repeat(31), &"ff".repeat(33)] {
        assert_eq!(
            seed_from_hex(short),
            Err("seed must be exactly 32 bytes (64 hex chars)".to_string())
        );
    }
    assert_eq!(
        seed_from_hex("abc"),
        Err("invalid hex seed: Odd number of digits".to_string())
    );
    let bad = format!("{}zz", "00".repeat(31));
    assert_eq!(
        seed_from_hex(&bad),
        Err(format!("invalid hex seed: {}", hex::decode(&bad).unwrap_err()))
    );
    assert_eq!(
        seed_from_hex(&bad),
        Err("invalid hex seed: Invalid character 'z' at position 62".to_string())
    );
}

#[test]
fn framed_pair_decodes_back_and_refuses_trailing_bytes() {
    let p0 = vec![1u8, 2, 3];
    let p1 = vec![9u8; 300];
    let b = frame_two(&Algorithm::Ed25519, &p0, &Algorithm::MlDsa87, &p1).unwrap();
    assert_eq!(b.len(), 10 + p0.len() + p1.len());
    let [c0, c1] = decode_two(&b).unwrap();
    assert_eq!((c0.0, c0.1), (Algorithm::Ed25519, &p0[..]));
    assert_eq!((c1.0, c1.1), (Algorithm::MlDsa87, &p1[..]));
    for extra in [vec![0u8], vec![1u8, 2, 3]] {
        let mut longer = b.clone();
        longer.extend_from_slice(&extra);
        assert_eq!(
            decode_two(&longer).err(),
            Some(CryptoError::MalformedFraming("trailing bytes after two components"))
        );
    }
}
