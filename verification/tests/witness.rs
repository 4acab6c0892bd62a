use indexone::witness::{
    submit, verify_consistency, SubmitError, verify_inclusion, ActionReceipt, ConsistencyProof, InclusionProof, PathStep,
    Witness,
};

fn receipt(action: u8) -> ActionReceipt {
    ActionReceipt {
        chain_digest: [1u8; 32],
        action_digest: [action; 32],
        nonce: [0u8; 32],
        prev_root: [0u8; 32],
    }
}

#[test]
fn inclusion_proof_verifies_for_every_leaf() {
    for size in 1..=9usize {
        let mut w = Witness::new();
        let receipts: Vec<_> = (0..size).map(|i| receipt(i as u8)).collect();
        for r in &receipts {
            w.append(r);
        }
        let root = w.root();
        for (i, r) in receipts.iter().enumerate() {
            let proof = w.inclusion_proof(i).expect("in range");
            assert!(
                verify_inclusion(r, &proof, &root),
                "leaf {i} of {size} should verify"
            );
        }
    }
}

#[test]
fn omitted_action_has_no_valid_inclusion_proof() {
    let mut w = Witness::new();
    w.append(&receipt(1));
    w.append(&receipt(2));
    let root = w.root();

    let never_recorded = receipt(99);
    let borrowed = w.inclusion_proof(0).unwrap();
    assert!(!verify_inclusion(&never_recorded, &borrowed, &root));
}

#[test]
fn wrong_root_is_rejected() {
    let mut w = Witness::new();
    w.append(&receipt(1));
    let proof = w.inclusion_proof(0).unwrap();
    let forged_root = [7u8; 32];
    assert!(!verify_inclusion(&receipt(1), &proof, &forged_root));
}

#[test]
fn appending_changes_the_root() {
    let mut w = Witness::new();
    let before = w.root();
    w.append(&receipt(1));
    let after = w.root();
    assert_ne!(before, after);
}

fn leaf(data: &[u8]) -> [u8; 32] {
    let mut h = blake3::Hasher::new();
    h.update(&[0x00]);
    h.update(data);
    *h.finalize().as_bytes()
}

fn node(l: &[u8; 32], r: &[u8; 32]) -> [u8; 32] {
    let mut h = blake3::Hasher::new();
    h.update(&[0x01]);
    h.update(l);
    h.update(r);
    *h.finalize().as_bytes()
}

fn jcs_receipt(r: &ActionReceipt) -> Vec<u8> {
    let arr = |d: &[u8; 32]| {
        serde_json::Value::Array(d.iter().map(|b| serde_json::Value::from(*b)).collect())
    };
    let mut obj = serde_json::Map::new();
    obj.insert("chain_digest".to_string(), arr(&r.chain_digest));
    obj.insert("action_digest".to_string(), arr(&r.action_digest));
    obj.insert("nonce".to_string(), arr(&r.nonce));
    obj.insert("prev_root".to_string(), arr(&r.prev_root));
    serde_jcs::to_vec(&serde_json::Value::Object(obj)).unwrap()
}

#[test]
fn canonical_bytes_are_rfc8785_json() {
    let r = ActionReceipt {
        chain_digest: [0u8; 32],
        action_digest: [9u8; 32],
        nonce: [7u8; 32],
        prev_root: [255u8; 32],
    };
    let bytes = r.canonical_bytes();
    assert_eq!(bytes, jcs_receipt(&r));
    // members sorted by name, no whitespace
    let text = String::from_utf8(bytes).unwrap();
    assert!(text.starts_with("{\"action_digest\":[9,9,"));
    assert!(text.contains("],\"chain_digest\":[0,0,"));
    assert!(text.contains("],\"nonce\":[7,7,"));
    assert!(text.ends_with(",255,255]}"));
    assert!(!text.contains(' '));
    let mut mixed = [0u8; 32];
    for (i, b) in mixed.iter_mut().enumerate() {
        *b = (i * 37 % 256) as u8;
    }
    let r2 = ActionReceipt {
        chain_digest: mixed,
        action_digest: [10u8; 32],
        nonce: [11u8; 32],
        prev_root: [100u8; 32],
    };
    assert_eq!(r2.canonical_bytes(), jcs_receipt(&r2));
}

#[test]
fn empty_and_small_roots_follow_rfc6962_shape() {
    let mut w = Witness::new();
    assert!(w.is_empty());
    assert_eq!(w.root(), leaf(b""));
    let r: Vec<_> = (0..3u8).map(receipt).collect();
    for x in &r {
        w.append(x);
    }
    assert_eq!(w.len(), 3);
    // Split of 3 is 2: root = node(node(l0, l1), l2).
    let l: Vec<_> = r.iter().map(|x| leaf(&x.canonical_bytes())).collect();
    assert_eq!(w.root(), node(&node(&l[0], &l[1]), &l[2]));
    let p = w.inclusion_proof(2).unwrap();
    assert_eq!(p.leaf_index, 2);
    assert_eq!(p.tree_size, 3);
    assert_eq!(
        p.path,
        vec![PathStep {
            sibling: node(&l[0], &l[1]),
            sibling_is_left: true
        }]
    );
    assert!(w.inclusion_proof(3).is_none());
}

#[test]
fn append_returns_consecutive_indices() {
    let mut w = Witness::default();
    assert_eq!(w.append(&receipt(1)), 0);
    assert_eq!(w.append(&receipt(2)), 1);
    assert_eq!(w.append(&receipt(3)), 2);
    assert!(!w.is_empty());
}

#[test]
fn swapped_sides_do_not_verify() {
    let mut w = Witness::new();
    w.append(&receipt(1));
    w.append(&receipt(2));
    let root = w.root();
    let mut proof: InclusionProof = w.inclusion_proof(0).unwrap();
    proof.path[0].sibling_is_left = !proof.path[0].sibling_is_left;
    assert!(!verify_inclusion(&receipt(1), &proof, &root));
}

#[test]
fn malformed_or_oversized_inclusion_proofs_are_refused() {
    let (w, roots) = log_of(5);
    let root = roots[5];
    let proof = w.inclusion_proof(4).unwrap();
    assert_eq!((proof.leaf_index, proof.tree_size), (4, 5));
    assert!(verify_inclusion(&receipt(4), &proof, &root));
    // a leaf index outside the claimed tree
    let mut outside = proof.clone();
    outside.leaf_index = 5;
    assert!(!verify_inclusion(&receipt(4), &outside, &root));
    // a path longer than ceil(log2(5)) = 3 steps
    let mut padded = proof.clone();
    while padded.path.len() <= 3 {
        padded.path.push(PathStep {
            sibling: [0u8; 32],
            sibling_is_left: false,
        });
    }
    assert!(!verify_inclusion(&receipt(4), &padded, &root));
    // leaf 0 of 5 has a three-step path; claimed for a tree of 2 leaves
    // (ceil(log2(2)) = 1 step) it is refused
    let first = w.inclusion_proof(0).unwrap();
    assert_eq!(first.path.len(), 3);
    assert!(verify_inclusion(&receipt(0), &first, &root));
    let mut shrunk = first.clone();
    shrunk.tree_size = 2;
    assert!(!verify_inclusion(&receipt(0), &shrunk, &root));
    // and for a tree of 4 or 8 leaves (3 steps allowed from 5 up) it still folds
    shrunk.tree_size = 8;
    assert!(verify_inclusion(&receipt(0), &shrunk, &root));
    shrunk.tree_size = 4;
    assert!(!verify_inclusion(&receipt(0), &shrunk, &root));
    // the leaf index itself is not folded: any index inside a tree that allows
    // the path length verifies
    let mut relabelled = proof.clone();
    relabelled.leaf_index = 0;
    assert!(verify_inclusion(&receipt(4), &relabelled, &root));
}

#[test]
fn single_leaf_log_has_an_empty_path() {
    let (w, roots) = log_of(1);
    let proof = w.inclusion_proof(0).unwrap();
    assert!(proof.path.is_empty());
    assert!(verify_inclusion(&receipt(0), &proof, &roots[1]));
    assert!(w.inclusion_proof(1).is_none());
}

// ---- consistency proofs ----

fn log_of(size: usize) -> (Witness, Vec<[u8; 32]>) {
    let mut w = Witness::new();
    let mut roots = vec![w.root()];
    for i in 0..size {
        w.append(&receipt(i as u8));
        roots.push(w.root());
    }
    (w, roots)
}

#[test]
fn consistency_proof_verifies_for_every_prefix() {
    for n in 0..=10usize {
        let (w, roots) = log_of(n);
        for m in 0..=n {
            let proof = w.consistency_proof(m, n).expect("in range");
            assert!(
                verify_consistency(&roots[m], &roots[n], &proof, m, n),
                "{m} -> {n} should verify"
            );
        }
    }
}

#[test]
fn consistency_proof_of_a_prefix_has_the_rfc_shape() {
    // a complete left subtree is a prefix: one node (the right sibling)
    let (w, _) = log_of(8);
    assert_eq!(w.consistency_proof(4, 8).unwrap().nodes.len(), 1);
    // 3 of 8: the old root must be rebuilt from proof nodes
    assert_eq!(w.consistency_proof(3, 8).unwrap().nodes.len(), 4);
    // same size and from the empty tree: no nodes
    assert!(w.consistency_proof(8, 8).unwrap().nodes.is_empty());
    assert!(w.consistency_proof(0, 8).unwrap().nodes.is_empty());
}

#[test]
fn consistency_proof_needs_the_current_size() {
    let (w, _) = log_of(5);
    assert!(w.consistency_proof(2, 4).is_none());
    assert!(w.consistency_proof(2, 6).is_none());
    assert!(w.consistency_proof(6, 5).is_none());
    assert!(w.consistency_proof(2, 5).is_some());
}

#[test]
fn consistency_rejects_wrong_roots_and_altered_proofs() {
    let (w, roots) = log_of(7);
    let proof = w.consistency_proof(3, 7).unwrap();
    assert!(verify_consistency(&roots[3], &roots[7], &proof, 3, 7));
    // another old root or another new root
    assert!(!verify_consistency(&roots[2], &roots[7], &proof, 3, 7));
    assert!(!verify_consistency(&roots[3], &roots[6], &proof, 3, 7));
    // sizes whose proof has another shape
    assert!(!verify_consistency(&roots[3], &roots[7], &proof, 3, 4));
    assert!(!verify_consistency(&roots[3], &roots[7], &proof, 4, 7));
    // one node flipped
    for i in 0..proof.nodes.len() {
        let mut bad = proof.clone();
        bad.nodes[i][0] ^= 1;
        assert!(!verify_consistency(&roots[3], &roots[7], &bad, 3, 7));
    }
    // one node short, one node too many
    let mut short = proof.clone();
    short.nodes.pop();
    assert!(!verify_consistency(&roots[3], &roots[7], &short, 3, 7));
    let mut long = proof.clone();
    long.nodes.push([0u8; 32]);
    assert!(!verify_consistency(&roots[3], &roots[7], &long, 3, 7));
}

#[test]
fn consistency_edge_sizes() {
    let (_, roots) = log_of(4);
    let empty = ConsistencyProof { nodes: vec![] };
    // equal sizes: the roots must match and the proof be empty
    assert!(verify_consistency(&roots[4], &roots[4], &empty, 4, 4));
    assert!(!verify_consistency(&roots[3], &roots[4], &empty, 4, 4));
    let one = ConsistencyProof {
        nodes: vec![roots[4]],
    };
    assert!(!verify_consistency(&roots[4], &roots[4], &one, 4, 4));
    // from the empty tree any tree extends, with an empty proof only
    assert!(verify_consistency(&[9u8; 32], &roots[4], &empty, 0, 4));
    assert!(!verify_consistency(&[9u8; 32], &roots[4], &one, 0, 4));
    // shrinking is never consistent
    assert!(!verify_consistency(&roots[4], &roots[3], &empty, 4, 3));
}

#[test]
fn stale_prev_root_is_rejected() {
    let mut w = Witness::new();
    let first = ActionReceipt {
        chain_digest: [1u8; 32],
        action_digest: [2u8; 32],
        nonce: [1u8; 32],
        prev_root: w.root(),
    };
    let (idx, proof) = submit(&mut w, &first).unwrap();
    assert_eq!(idx, 0);
    assert!(verify_inclusion(&first, &proof, &w.root()));
    // built against the empty log's root, which is no longer current
    let stale = ActionReceipt {
        chain_digest: [1u8; 32],
        action_digest: [3u8; 32],
        nonce: [2u8; 32],
        prev_root: Witness::new().root(),
    };
    let before = w.root();
    assert_eq!(submit(&mut w, &stale), Err(SubmitError::StalePrevRoot));
    assert_eq!(w.len(), 1);
    assert_eq!(w.root(), before);
    let fresh = ActionReceipt {
        prev_root: w.root(),
        ..stale
    };
    let (idx2, proof2) = submit(&mut w, &fresh).unwrap();
    assert_eq!((idx2, proof2.tree_size), (1, 2));
    assert!(verify_inclusion(&fresh, &proof2, &w.root()));
}

#[test]
fn identical_actions_with_distinct_nonces_get_distinct_leaves() {
    let a = ActionReceipt {
        chain_digest: [1u8; 32],
        action_digest: [2u8; 32],
        nonce: [3u8; 32],
        prev_root: [0u8; 32],
    };
    let b = ActionReceipt { nonce: [4u8; 32], ..a };
    assert_ne!(a.canonical_bytes(), b.canonical_bytes());
    let mut w = Witness::new();
    w.append(&a);
    w.append(&b);
    let root = w.root();
    let pa = w.inclusion_proof(0).unwrap();
    let pb = w.inclusion_proof(1).unwrap();
    assert!(verify_inclusion(&a, &pa, &root));
    assert!(verify_inclusion(&b, &pb, &root));
    assert!(!verify_inclusion(&b, &pa, &root));
}
