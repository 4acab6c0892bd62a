use sha2::Digest as _;
use base64::Engine;
use indexone::checkpoint::{
    cosign, note_body, sign_checkpoint, verify_checkpoint, verify_quorum, Checkpoint, CosignError,
    CosigningWitness,
};
use indexone::crypto::{Algorithm, PublicKey, Signer};
use indexone::ed25519::Ed25519Signer;
use indexone::witness::{ActionReceipt, ConsistencyProof, Digest, Witness};

fn checkpoint() -> Checkpoint {
    Checkpoint {
        origin: "indexone.dev/witness".to_string(),
        size: 42,
        root: [7u8; 32],
    }
}

#[test]
fn sign_then_verify_roundtrips() {
    let op = Ed25519Signer::from_seed([1u8; 32]);
    let cp = checkpoint();
    let note = sign_checkpoint(&op, "indexone", &cp);
    let got = verify_checkpoint(&note, "indexone", &op.public_key()).expect("verifies");
    assert_eq!(got, cp);
}

#[test]
fn note_has_c2sp_shape() {
    let op = Ed25519Signer::from_seed([2u8; 32]);
    let note = sign_checkpoint(&op, "indexone", &checkpoint());
    let mut lines = note.lines();
    assert_eq!(lines.next().unwrap(), "indexone.dev/witness");
    assert_eq!(lines.next().unwrap(), "42");
    assert_eq!(
        lines.next().unwrap(),
        base64::engine::general_purpose::STANDARD.encode([7u8; 32])
    );
    assert!(lines.next().unwrap().starts_with("\u{2014} indexone "));
}

#[test]
fn tampered_body_is_rejected() {
    let op = Ed25519Signer::from_seed([3u8; 32]);
    let note = sign_checkpoint(&op, "indexone", &checkpoint());
    let tampered = note.replacen("42", "43", 1);
    assert!(verify_checkpoint(&tampered, "indexone", &op.public_key()).is_none());
}

#[test]
fn wrong_key_is_rejected() {
    let op = Ed25519Signer::from_seed([4u8; 32]);
    let impostor = Ed25519Signer::from_seed([5u8; 32]);
    let note = sign_checkpoint(&op, "indexone", &checkpoint());
    assert!(verify_checkpoint(&note, "indexone", &impostor.public_key()).is_none());
}

#[test]
fn cosigned_note_verifies_under_each_witness() {
    let log = Ed25519Signer::from_seed([6u8; 32]);
    let witness_a = Ed25519Signer::from_seed([7u8; 32]);
    let witness_b = Ed25519Signer::from_seed([8u8; 32]);
    let cp = checkpoint();

    let note = sign_checkpoint(&log, "indexone", &cp);
    let note = cosign(&note, &witness_a, "witness-a").expect("cosign a");
    let note = cosign(&note, &witness_b, "witness-b").expect("cosign b");

    assert_eq!(
        verify_checkpoint(&note, "indexone", &log.public_key()),
        Some(cp.clone())
    );
    assert_eq!(
        verify_checkpoint(&note, "witness-a", &witness_a.public_key()),
        Some(cp.clone())
    );
    assert_eq!(
        verify_checkpoint(&note, "witness-b", &witness_b.public_key()),
        Some(cp)
    );
    let stranger = Ed25519Signer::from_seed([9u8; 32]);
    assert!(verify_checkpoint(&note, "stranger", &stranger.public_key()).is_none());
}

// ---- further cases ----

#[test]
fn signed_note_is_body_then_one_signature_line() {
    let op = Ed25519Signer::from_seed([1u8; 32]);
    let note = sign_checkpoint(&op, "indexone", &checkpoint());
    let body = note_body(&note).unwrap();
    let b64 = base64::engine::general_purpose::STANDARD.encode([7u8; 32]);
    assert_eq!(body, format!("indexone.dev/witness\n42\n{b64}\n"));
    let line = &note[body.len()..];
    assert!(line.starts_with("\u{2014} indexone "));
    assert!(line.ends_with('\n'));
    let blob = base64::engine::general_purpose::STANDARD
        .decode(line["\u{2014} indexone ".len()..].trim_end())
        .unwrap();
    assert_eq!(blob.len(), 68);
    let sig = op.sign(body.as_bytes()).unwrap();
    assert_eq!(&blob[4..], &sig.bytes[..]);
}

#[test]
fn note_body_needs_three_lines_before_a_signature() {
    assert_eq!(note_body("a\nb\n\u{2014} k sig\n"), None);
    assert_eq!(note_body("a\nb\nc\n"), None);
    assert_eq!(
        note_body("a\nb\nc\n\u{2014} k sig\n"),
        Some("a\nb\nc\n".to_string())
    );
    assert_eq!(
        note_body("a\nb\nc\nd\n\u{2014} k sig"),
        Some("a\nb\nc\nd\n".to_string())
    );
    assert_eq!(note_body(""), None);
}

#[test]
fn cosign_refuses_a_note_without_body() {
    let w = Ed25519Signer::from_seed([7u8; 32]);
    assert!(cosign("just one line\n", &w, "witness").is_none());
}

#[test]
fn carriage_returns_are_stripped_from_parsed_lines() {
    let op = Ed25519Signer::from_seed([1u8; 32]);
    let note = sign_checkpoint(&op, "indexone", &checkpoint());
    let body = note_body(&note).unwrap();
    // a body whose lines end in CRLF, signed as it stands
    let crlf_body = body.replace('\n', "\r\n");
    let sig = op.sign(crlf_body.as_bytes()).unwrap();
    let line_prefix = "\u{2014} indexone ";
    let keyhash_line = &note[body.len() + line_prefix.len()..];
    let blob = base64::engine::general_purpose::STANDARD
        .decode(keyhash_line.trim_end())
        .unwrap();
    let mut new_blob = blob[..4].to_vec();
    new_blob.extend_from_slice(&sig.bytes);
    let crlf_note = format!(
        "{crlf_body}{line_prefix}{}\n",
        base64::engine::general_purpose::STANDARD.encode(new_blob)
    );
    assert_eq!(
        verify_checkpoint(&crlf_note, "indexone", &op.public_key()),
        Some(checkpoint())
    );
}

#[test]
fn size_parses_as_usize_from_str() {
    let op = Ed25519Signer::from_seed([1u8; 32]);
    let b64 = base64::engine::general_purpose::STANDARD.encode([7u8; 32]);
    let signed = |size_line: &str| {
        let cp_note = format!("indexone.dev/witness\n{size_line}\n{b64}\n");
        let sig = op.sign(cp_note.as_bytes()).unwrap();
        let good = sign_checkpoint(&op, "indexone", &checkpoint());
        let body = note_body(&good).unwrap();
        let blob = base64::engine::general_purpose::STANDARD
            .decode(good[body.len() + "\u{2014} indexone ".len()..].trim_end())
            .unwrap();
        let mut new_blob = blob[..4].to_vec();
        new_blob.extend_from_slice(&sig.bytes);
        format!(
            "{cp_note}\u{2014} indexone {}\n",
            base64::engine::general_purpose::STANDARD.encode(new_blob)
        )
    };
    let got = verify_checkpoint(&signed("+0042"), "indexone", &op.public_key()).unwrap();
    assert_eq!(got.size, 42);
    assert!(verify_checkpoint(&signed("-42"), "indexone", &op.public_key()).is_none());
    assert!(verify_checkpoint(&signed("+"), "indexone", &op.public_key()).is_none());
    assert!(verify_checkpoint(&signed("4 2"), "indexone", &op.public_key()).is_none());
    assert!(verify_checkpoint(
        &signed("99999999999999999999999999"),
        "indexone",
        &op.public_key()
    )
    .is_none());
}

#[test]
fn non_ed25519_key_never_verifies() {
    let op = Ed25519Signer::from_seed([1u8; 32]);
    let note = sign_checkpoint(&op, "indexone", &checkpoint());
    let key = PublicKey {
        algorithm: Algorithm::MlDsa87,
        bytes: op.public_key().bytes,
    };
    assert!(verify_checkpoint(&note, "indexone", &key).is_none());
}

#[test]
fn quorum_counts_each_verifying_witness() {
    let log = Ed25519Signer::from_seed([10u8; 32]);
    let wa = Ed25519Signer::from_seed([11u8; 32]);
    let (log_key, wa_key) = (log.public_key(), wa.public_key());
    let quorum = [("indexone.dev/witness", &log_key), ("witness-a", &wa_key)];
    let note = sign_checkpoint(&log, "indexone.dev/witness", &checkpoint());
    assert!(verify_quorum(&note, &quorum, 2).is_none());
    assert_eq!(verify_quorum(&note, &quorum, 1), Some(checkpoint()));
    let cosigned = cosign(&note, &wa, "witness-a").unwrap();
    assert_eq!(verify_quorum(&cosigned, &quorum, 2), Some(checkpoint()));
    assert!(verify_quorum(&cosigned, &quorum, 3).is_none());
    assert_eq!(verify_quorum(&cosigned, &quorum, 0), Some(checkpoint()));
    assert_eq!(verify_quorum(&cosigned, &[], 0), None);
}

#[test]
fn signature_over_another_body_does_not_count() {
    let wa = Ed25519Signer::from_seed([11u8; 32]);
    let wb = Ed25519Signer::from_seed([12u8; 32]);
    let (wa_key, wb_key) = (wa.public_key(), wb.public_key());
    let forked = Checkpoint {
        origin: "indexone.dev/witness".to_string(),
        size: 42,
        root: [8u8; 32],
    };
    let note_a = sign_checkpoint(&wa, "witness-a", &checkpoint());
    let note_b = sign_checkpoint(&wb, "witness-b", &forked);
    // one text holding two bodies: only the first body is the note's body
    let combined = format!("{note_a}{note_b}");
    assert_eq!(
        verify_checkpoint(&combined, "witness-a", &wa_key),
        Some(checkpoint())
    );
    assert!(verify_checkpoint(&combined, "witness-b", &wb_key).is_none());
    let quorum = [("witness-a", &wa_key), ("witness-b", &wb_key)];
    assert_eq!(verify_quorum(&combined, &quorum, 1), Some(checkpoint()));
    assert!(verify_quorum(&combined, &quorum, 2).is_none());
}

// ---- cosigning flow and quorum ----

const ORIGIN: &str = "indexone.dev/witness";

fn receipt(tag: u8, prev: Digest) -> ActionReceipt {
    ActionReceipt {
        chain_digest: [tag; 32],
        action_digest: [tag; 32],
        nonce: [tag; 32],
        prev_root: prev,
    }
}

/// The log's current head as a checkpoint note (key name = origin).
fn log_note(log: &Ed25519Signer, w: &Witness) -> String {
    let cp = Checkpoint {
        origin: ORIGIN.to_string(),
        size: w.len(),
        root: w.root(),
    };
    sign_checkpoint(log, ORIGIN, &cp)
}

fn empty_proof() -> ConsistencyProof {
    ConsistencyProof { nodes: vec![] }
}

#[test]
fn witness_cosigns_extensions_and_quorum_holds() {
    let log = Ed25519Signer::from_seed([1u8; 32]);
    let wa = Ed25519Signer::from_seed([2u8; 32]);
    let (log_key, wa_key) = (log.public_key(), wa.public_key());
    let quorum = [(ORIGIN, &log_key), ("witness-a", &wa_key)];

    let mut w = Witness::new();
    let r1 = receipt(1, w.root());
    w.append(&r1);
    let note1 = log_note(&log, &w);

    let mut witness = CosigningWitness::new(wa, "witness-a", ORIGIN, log_key.clone());
    let line1 = witness
        .add_checkpoint(&note1, 0, &empty_proof())
        .expect("cosign size 1");
    assert_eq!(witness.last_size(), 1);
    let cosigned1 = format!("{note1}{line1}");
    assert_eq!(verify_quorum(&cosigned1, &quorum, 2).unwrap().size, 1);

    let r2 = receipt(2, w.root());
    w.append(&r2);
    let note2 = log_note(&log, &w);
    let proof = w.consistency_proof(1, 2).expect("consistency 1->2");
    let line2 = witness
        .add_checkpoint(&note2, 1, &proof)
        .expect("cosign size 2");
    assert_eq!(witness.last_size(), 2);
    assert!(verify_quorum(&format!("{note2}{line2}"), &quorum, 2).is_some());
}

#[test]
fn witness_refuses_size_mismatch_and_rollback() {
    let log = Ed25519Signer::from_seed([3u8; 32]);
    let log_key = log.public_key();
    let mut w = Witness::new();
    w.append(&receipt(1, w.root()));
    let note1 = log_note(&log, &w);
    let mut witness =
        CosigningWitness::new(Ed25519Signer::from_seed([4u8; 32]), "wa", ORIGIN, log_key);
    witness.add_checkpoint(&note1, 0, &empty_proof()).unwrap();

    assert_eq!(
        witness
            .add_checkpoint(&note1, 0, &empty_proof())
            .unwrap_err(),
        CosignError::SizeMismatch { our_size: 1 }
    );

    w.append(&receipt(2, w.root()));
    let note2 = log_note(&log, &w);
    let proof = w.consistency_proof(1, 2).unwrap();
    witness.add_checkpoint(&note2, 1, &proof).unwrap();
    assert_eq!(
        witness
            .add_checkpoint(&note1, 2, &empty_proof())
            .unwrap_err(),
        CosignError::Rollback {
            our_size: 2,
            new_size: 1,
        }
    );
}

#[test]
fn witness_rejects_inconsistent_proof() {
    let log = Ed25519Signer::from_seed([5u8; 32]);
    let log_key = log.public_key();
    let mut w = Witness::new();
    w.append(&receipt(1, w.root()));
    let note1 = log_note(&log, &w);
    let mut witness =
        CosigningWitness::new(Ed25519Signer::from_seed([6u8; 32]), "wa", ORIGIN, log_key);
    witness.add_checkpoint(&note1, 0, &empty_proof()).unwrap();
    w.append(&receipt(2, w.root()));
    let note2 = log_note(&log, &w);
    let bogus = ConsistencyProof {
        nodes: vec![[9u8; 32]],
    };
    assert_eq!(
        witness.add_checkpoint(&note2, 1, &bogus).unwrap_err(),
        CosignError::InconsistentProof
    );
}

#[test]
fn witness_rejects_foreign_log() {
    let log = Ed25519Signer::from_seed([7u8; 32]);
    let impostor = Ed25519Signer::from_seed([8u8; 32]);
    let mut w = Witness::new();
    w.append(&receipt(1, w.root()));
    let foreign_note = log_note(&impostor, &w);
    let mut witness = CosigningWitness::new(
        Ed25519Signer::from_seed([9u8; 32]),
        "wa",
        ORIGIN,
        log.public_key(),
    );
    assert_eq!(
        witness
            .add_checkpoint(&foreign_note, 0, &empty_proof())
            .unwrap_err(),
        CosignError::BadLogSignature
    );
}

#[test]
fn quorum_requires_threshold() {
    let log = Ed25519Signer::from_seed([10u8; 32]);
    let wa = Ed25519Signer::from_seed([11u8; 32]);
    let (log_key, wa_key) = (log.public_key(), wa.public_key());
    let quorum = [(ORIGIN, &log_key), ("witness-a", &wa_key)];

    let mut w = Witness::new();
    w.append(&receipt(1, w.root()));
    let note1 = log_note(&log, &w);

    assert!(verify_quorum(&note1, &quorum, 2).is_none());
    assert!(verify_quorum(&note1, &quorum, 1).is_some());

    let mut witness = CosigningWitness::new(wa, "witness-a", ORIGIN, log_key.clone());
    let line = witness.add_checkpoint(&note1, 0, &empty_proof()).unwrap();
    assert!(verify_quorum(&format!("{note1}{line}"), &quorum, 2).is_some());
}

#[test]
fn refused_checkpoint_leaves_the_witness_unchanged() {
    let log = Ed25519Signer::from_seed([12u8; 32]);
    let mut w = Witness::new();
    w.append(&receipt(1, w.root()));
    let note1 = log_note(&log, &w);
    let mut witness =
        CosigningWitness::new(Ed25519Signer::from_seed([13u8; 32]), "wa", ORIGIN, log.public_key());
    // a non-empty proof from size 0 is refused
    let nonempty = ConsistencyProof {
        nodes: vec![[1u8; 32]],
    };
    assert_eq!(
        witness.add_checkpoint(&note1, 0, &nonempty).unwrap_err(),
        CosignError::InconsistentProof
    );
    assert_eq!(witness.last_size(), 0);
    // and then the same checkpoint with the right proof is accepted
    assert!(witness.add_checkpoint(&note1, 0, &empty_proof()).is_ok());
    assert_eq!(witness.last_size(), 1);
    // re-presenting the same checkpoint (size 1 -> 1) needs an empty proof
    assert!(witness.add_checkpoint(&note1, 1, &empty_proof()).is_ok());
    assert_eq!(witness.last_size(), 1);
}

#[test]
fn cosignature_line_signs_the_log_body() {
    let log = Ed25519Signer::from_seed([14u8; 32]);
    let wa = Ed25519Signer::from_seed([15u8; 32]);
    let wa_key = wa.public_key();
    let mut w = Witness::new();
    w.append(&receipt(1, w.root()));
    let note1 = log_note(&log, &w);
    let mut witness = CosigningWitness::new(wa, "witness-a", ORIGIN, log.public_key());
    let line = witness.add_checkpoint(&note1, 0, &empty_proof()).unwrap();
    assert!(line.starts_with("\u{2014} witness-a "));
    assert!(line.ends_with('\n'));
    let expected = Checkpoint {
        origin: ORIGIN.to_string(),
        size: 1,
        root: w.root(),
    };
    assert_eq!(
        verify_checkpoint(&format!("{note1}{line}"), "witness-a", &wa_key),
        Some(expected)
    );
}

#[test]
fn witness_follows_an_honest_log_through_many_appends() {
    let log = Ed25519Signer::from_seed([16u8; 32]);
    let wa = Ed25519Signer::from_seed([17u8; 32]);
    let wa_key = wa.public_key();
    let log_key = log.public_key();
    let quorum = [(ORIGIN, &log_key), ("witness-a", &wa_key)];
    let mut witness = CosigningWitness::new(wa, "witness-a", ORIGIN, log.public_key());
    let mut w = Witness::new();
    let mut last = 0usize;
    for target in [1usize, 2, 5, 8, 8, 13] {
        while w.len() < target {
            let r = receipt(w.len() as u8, w.root());
            w.append(&r);
        }
        let note = log_note(&log, &w);
        let proof = w.consistency_proof(last, w.len()).unwrap();
        let line = witness
            .add_checkpoint(&note, last, &proof)
            .expect("an honest log is cosigned");
        assert_eq!(witness.last_size(), target);
        let cp = verify_quorum(&format!("{note}{line}"), &quorum, 2).unwrap();
        assert_eq!((cp.size, cp.root), (target, w.root()));
        last = target;
    }
}

#[test]
fn signature_line_key_hash_is_sha256_of_name_and_key() {
    let op = Ed25519Signer::from_seed([2u8; 32]);
    let note = sign_checkpoint(&op, "indexone", &checkpoint());
    let body = note_body(&note).unwrap();
    let blob = base64::engine::general_purpose::STANDARD
        .decode(note[body.len() + "\u{2014} indexone ".len()..].trim_end())
        .unwrap();
    let mut h = sha2::Sha256::new();
    h.update(b"indexone");
    h.update(b"\n");
    h.update([0x01u8]);
    h.update(&op.public_key().bytes);
    let d = h.finalize();
    assert_eq!(&blob[..4], &d[..4]);
    // another key name gives another key hash
    let other = sign_checkpoint(&op, "indexone2", &checkpoint());
    let other_body = note_body(&other).unwrap();
    let other_blob = base64::engine::general_purpose::STANDARD
        .decode(other[other_body.len() + "\u{2014} indexone2 ".len()..].trim_end())
        .unwrap();
    assert_ne!(&other_blob[..4], &blob[..4]);
}
