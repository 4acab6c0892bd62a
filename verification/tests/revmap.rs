use indexone::revmap::{verify_inclusion, verify_non_inclusion, MapProof, RevocationMap, DEPTH};

fn key(tag: u8) -> indexone::revmap::Hash {
    *blake3::hash(&[tag]).as_bytes()
}

fn node(l: &indexone::revmap::Hash, r: &indexone::revmap::Hash) -> indexone::revmap::Hash {
    let mut h = blake3::Hasher::new();
    h.update(&[0x01]);
    h.update(l);
    h.update(r);
    *h.finalize().as_bytes()
}

fn all_default(height: usize) -> indexone::revmap::Hash {
    let mut d = *blake3::hash(b"indexone-revmap/empty-leaf/v1").as_bytes();
    for _ in 0..height {
        d = node(&d, &d);
    }
    d
}

#[test]
fn inclusion_and_non_inclusion_verify() {
    let mut map = RevocationMap::new();
    let revoked = key(1);
    let live = key(2);
    map.revoke(revoked);
    let root = map.root();

    assert!(verify_inclusion(&root, &revoked, &map.prove(&revoked)));
    assert!(verify_non_inclusion(&root, &live, &map.prove(&live)));
}

#[test]
fn proofs_do_not_cross_over() {
    let mut map = RevocationMap::new();
    let revoked = key(1);
    let live = key(2);
    map.revoke(revoked);
    let root = map.root();

    assert!(!verify_inclusion(&root, &live, &map.prove(&live)));
    assert!(!verify_non_inclusion(&root, &revoked, &map.prove(&revoked)));
}

#[test]
fn a_proof_is_bound_to_its_key() {
    let mut map = RevocationMap::new();
    let a = key(1);
    let b = key(2);
    map.revoke(a);
    map.revoke(b);
    let root = map.root();

    let proof_a = map.prove(&a);
    assert!(verify_inclusion(&root, &a, &proof_a));
    assert!(!verify_inclusion(&root, &b, &proof_a));
}

#[test]
fn tampered_proof_is_rejected() {
    let mut map = RevocationMap::new();
    let revoked = key(1);
    map.revoke(revoked);
    let root = map.root();

    let mut proof = map.prove(&revoked);
    if let Some(first) = proof.siblings.first_mut() {
        first[0] ^= 0xff;
    } else {
        proof.siblings.push([0xab; 32]);
        proof.present[0] |= 0x80;
    }
    assert!(!verify_inclusion(&root, &revoked, &proof));
}

#[test]
fn malformed_proof_fails_closed() {
    let key = key(1);
    let mut present = vec![0u8; DEPTH / 8];
    present[0] |= 0x80;
    let bad = MapProof {
        present,
        siblings: vec![],
    };
    assert!(!verify_non_inclusion(&[0u8; 32], &key, &bad));
    let bad2 = MapProof {
        present: vec![0u8; 4],
        siblings: vec![],
    };
    assert!(!verify_non_inclusion(&[0u8; 32], &key, &bad2));
}

#[test]
fn root_reflects_revocations_and_is_order_independent() {
    let a = key(1);
    let b = key(2);

    let mut m1 = RevocationMap::new();
    m1.revoke(a);
    let root_before = m1.root();
    assert!(verify_non_inclusion(&root_before, &b, &m1.prove(&b)));
    m1.revoke(b);
    let root_after = m1.root();
    assert_ne!(root_before, root_after, "revoking must move the root");
    assert!(verify_inclusion(&root_after, &b, &m1.prove(&b)));

    let mut m2 = RevocationMap::new();
    m2.revoke(b);
    m2.revoke(a);
    assert_eq!(root_after, m2.root(), "root must be order-independent");
}

#[test]
fn empty_map_proves_everything_absent() {
    let map = RevocationMap::new();
    let root = map.root();
    assert_eq!(root, all_default(DEPTH));
    let k = key(3);
    assert!(verify_non_inclusion(&root, &k, &map.prove(&k)));
}

#[test]
fn many_entries_still_verify() {
    let mut map = RevocationMap::new();
    for t in 0..200u8 {
        map.revoke(key(t));
    }
    let root = map.root();
    let revoked = key(137);
    assert!(verify_inclusion(&root, &revoked, &map.prove(&revoked)));

    let live = *blake3::hash(b"definitely-not-in-the-set").as_bytes();
    assert!(!map.contains(&live));
    assert!(verify_non_inclusion(&root, &live, &map.prove(&live)));
}

#[test]
fn revoke_is_idempotent_and_contains_tracks_it() {
    let mut m = RevocationMap::new();
    assert!(!m.contains(&key(5)));
    m.revoke(key(5));
    let once = m.root();
    m.revoke(key(5));
    assert_eq!(once, m.root());
    assert!(m.contains(&key(5)));
    assert!(!m.contains(&key(6)));
}

#[test]
fn single_key_root_is_the_leaf_folded_over_defaults() {
    // A map holding one key: its root is the leaf hashed up the key's path
    // against the all-empty default of every level.
    let k = [0u8; 32];
    let mut m = RevocationMap::new();
    m.revoke(k);
    let mut leaf = blake3::Hasher::new();
    leaf.update(&[0x00]);
    leaf.update(&k);
    let mut cur = *leaf.finalize().as_bytes();
    for depth in (0..DEPTH).rev() {
        // key bits are all 0: the running hash is always the left input.
        cur = node(&cur, &all_default(DEPTH - depth - 1));
    }
    assert_eq!(m.root(), cur);
}

#[test]
fn proofs_are_compact() {
    // With a single other key, only the depth where the paths split carries a
    // real sibling; every other level is elided to its default.
    let mut m = RevocationMap::new();
    let a = [0u8; 32];
    let mut b = [0u8; 32];
    b[0] = 0x80; // differs from `a` in bit 0 only
    m.revoke(b);
    let p = m.prove(&a);
    assert_eq!(p.siblings.len(), 1);
    assert_eq!(p.present[0], 0x80);
    assert!(p.present[1..].iter().all(|&x| x == 0));
    assert!(verify_non_inclusion(&m.root(), &a, &p));
    assert!(verify_inclusion(&m.root(), &b, &m.prove(&b)));
}
