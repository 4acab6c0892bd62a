//! The cross-organization transparency log: an append-only RFC 6962 Merkle
//! tree over action receipts, with inclusion proofs. Leaves and interior nodes
//! are domain-separated (`0x00` / `0x01`); blake3 is the hash.
use vstd::prelude::*;
use vstd::string::StringSliceAdditionalSpecFns;

use crate::hashing::{append_bytes, blake3_hash, hash_eq, lemma_hash_view_eq, spec_blake3};
use crate::json::{push_json_array, spec_json_array};

verus! {

broadcast use vstd::array::group_array_axioms;

/// A 32-byte blake3 digest.
pub type Digest = [u8; 32];

const LEAF_PREFIX: u8 = 0x00;
const NODE_PREFIX: u8 = 0x01;

/// `blake3(0x00 ‖ data)`.
pub open spec fn spec_hash_leaf(data: Seq<u8>) -> Seq<u8> {
    spec_blake3(seq![0x00u8] + data)
}

/// `blake3(0x01 ‖ left ‖ right)`.
pub open spec fn spec_hash_node(left: Seq<u8>, right: Seq<u8>) -> Seq<u8> {
    spec_blake3(seq![0x01u8] + left + right)
}

fn hash_leaf(data: &[u8]) -> (r: Digest)
    ensures
        r@ == spec_hash_leaf(data@),
{
    let mut buf: Vec<u8> = Vec::new();
    buf.push(LEAF_PREFIX);
    append_bytes(&mut buf, data);
    blake3_hash(buf.as_slice())
}

fn hash_node(left: &Digest, right: &Digest) -> (r: Digest)
    ensures
        r@ == spec_hash_node(left@, right@),
{
    let mut buf: Vec<u8> = Vec::with_capacity(65);
    buf.push(NODE_PREFIX);
    append_bytes(&mut buf, left.as_slice());
    append_bytes(&mut buf, right.as_slice());
    blake3_hash(buf.as_slice())
}

// ---------------------------------------------------------------------------
// Receipts and their canonical bytes
// ---------------------------------------------------------------------------

/// A receipt committing one agent action to the witness.
#[derive(Debug, Clone, Copy, PartialEq, Eq)]
pub struct ActionReceipt {
    /// Digest of the delegation chain the action ran under.
    pub chain_digest: Digest,
    /// Digest of the action itself (caller-defined).
    pub action_digest: Digest,
    /// Per-invocation nonce, so two byte-identical actions never share a leaf.
    pub nonce: Digest,
    /// The Merkle root this receipt was appended on top of.
    pub prev_root: Digest,
}

pub const JSON_ACTION_DIGEST: &'static str = "{\"action_digest\":";
pub const JSON_CHAIN_DIGEST: &'static str = ",\"chain_digest\":";
pub const JSON_NONCE: &'static str = ",\"nonce\":";
pub const JSON_PREV_ROOT: &'static str = ",\"prev_root\":";

/// The canonical bytes of a receipt: its RFC 8785 (JCS) JSON object — members
/// sorted by name, no whitespace — with each digest an array of decimal byte
/// values.
pub open spec fn spec_canonical_bytes(r: ActionReceipt) -> Seq<u8> {
    JSON_ACTION_DIGEST.spec_bytes() + spec_json_array(r.action_digest@)
        + JSON_CHAIN_DIGEST.spec_bytes() + spec_json_array(r.chain_digest@)
        + JSON_NONCE.spec_bytes() + spec_json_array(r.nonce@)
        + JSON_PREV_ROOT.spec_bytes() + spec_json_array(r.prev_root@)
        + seq![125u8]
}

impl ActionReceipt {
    /// Canonical bytes committed as the Merkle leaf: the receipt's RFC 8785
    /// canonical JSON encoding.
    pub fn canonical_bytes(&self) -> (r: Vec<u8>)
        ensures
            r@ == spec_canonical_bytes(*self),
    {
        let mut out: Vec<u8> = Vec::new();
        append_bytes(&mut out, JSON_ACTION_DIGEST.as_bytes());
        push_json_array(&mut out, self.action_digest.as_slice());
        append_bytes(&mut out, JSON_CHAIN_DIGEST.as_bytes());
        push_json_array(&mut out, self.chain_digest.as_slice());
        append_bytes(&mut out, JSON_NONCE.as_bytes());
        push_json_array(&mut out, self.nonce.as_slice());
        append_bytes(&mut out, JSON_PREV_ROOT.as_bytes());
        push_json_array(&mut out, self.prev_root.as_slice());
        out.push(125);
        out
    }
}

// ---------------------------------------------------------------------------
// Tree shape and roots
// ---------------------------------------------------------------------------

/// Doubling `k` while `2k < n`: starting from 1 this yields the largest power
/// of two strictly less than `n` (for `n > 1`), the RFC 6962 split.
pub open spec fn split_from(k: nat, n: nat) -> nat
    decreases n - k,
{
    if k > 0 && k < n && 2 * k < n {
        split_from(2 * k, n)
    } else {
        k
    }
}

/// Largest power of two strictly less than `n` (for `n > 1`).
pub open spec fn spec_split(n: nat) -> nat {
    split_from(1, n)
}

proof fn lemma_split_from_bounds(k: nat, n: nat)
    requires
        1 <= k < n,
    ensures
        1 <= split_from(k, n) < n,
    decreases n - k,
{
    if 2 * k < n {
        lemma_split_from_bounds(2 * k, n);
    }
}

/// For `n > 1` the split leaves both halves non-empty.
pub proof fn lemma_split_bounds(n: nat)
    requires
        n > 1,
    ensures
        1 <= spec_split(n) < n,
{
    lemma_split_from_bounds(1, n);
}

/// Largest power of two strictly less than `n` (for `n > 1`).
fn split_point(n: usize) -> (k: usize)
    requires
        n > 1,
    ensures
        k == spec_split(n as nat),
{
    let mut k: usize = 1;
    while k < n - k
        invariant
            1 <= k < n,
            split_from(k as nat, n as nat) == spec_split(n as nat),
        decreases n - k,
    {
        k = k + k;
    }
    k
}

/// The empty-tree root: the hash of the empty string as a leaf.
pub open spec fn spec_empty_root() -> Seq<u8> {
    spec_hash_leaf(Seq::empty())
}

/// RFC 6962 Merkle root of `leaves` (raw leaf data, hashed here).
pub open spec fn spec_root(leaves: Seq<Seq<u8>>) -> Seq<u8>
    decreases leaves.len(),
{
    if leaves.len() == 0 {
        spec_empty_root()
    } else if leaves.len() == 1 {
        spec_hash_leaf(leaves[0])
    } else {
        let k = spec_split(leaves.len());
        proof {
            lemma_split_bounds(leaves.len());
        }
        spec_hash_node(spec_root(leaves.take(k as int)), spec_root(leaves.skip(k as int)))
    }
}

/// One audit-path step as a value: the sibling's bytes and whether it is the
/// left input to the parent.
pub open spec fn step_view(s: PathStep) -> (Seq<u8>, bool) {
    (s.sibling@, s.sibling_is_left)
}

/// The views of an audit path.
pub open spec fn path_view(path: Seq<PathStep>) -> Seq<(Seq<u8>, bool)> {
    path.map_values(|s: PathStep| step_view(s))
}

/// Leaf-up audit path for `index` within `leaves`.
pub open spec fn spec_path(leaves: Seq<Seq<u8>>, index: nat) -> Seq<(Seq<u8>, bool)>
    decreases leaves.len(),
{
    if leaves.len() <= 1 {
        Seq::empty()
    } else {
        let k = spec_split(leaves.len());
        proof {
            lemma_split_bounds(leaves.len());
        }
        if index < k {
            spec_path(leaves.take(k as int), index).push((spec_root(leaves.skip(k as int)), false))
        } else {
            spec_path(leaves.skip(k as int), (index - k) as nat).push((spec_root(leaves.take(k as int)), true))
        }
    }
}

/// Combine the running hash with one step's sibling.
pub open spec fn spec_step(acc: Seq<u8>, step: (Seq<u8>, bool)) -> Seq<u8> {
    if step.1 {
        spec_hash_node(step.0, acc)
    } else {
        spec_hash_node(acc, step.0)
    }
}

/// Fold `acc` up the whole `path`, first step first.
pub open spec fn spec_fold(acc: Seq<u8>, path: Seq<(Seq<u8>, bool)>) -> Seq<u8>
    decreases path.len(),
{
    if path.len() == 0 {
        acc
    } else {
        spec_step(spec_fold(acc, path.drop_last()), path.last())
    }
}

/// Completeness of audit paths: folding leaf `index`'s hash up its audit path
/// gives the root of the whole tree.
pub proof fn lemma_path_folds_to_root(leaves: Seq<Seq<u8>>, index: nat)
    requires
        index < leaves.len(),
    ensures
        spec_fold(spec_hash_leaf(leaves[index as int]), spec_path(leaves, index)) == spec_root(leaves),
    decreases leaves.len(),
{
    if leaves.len() > 1 {
        let k = spec_split(leaves.len());
        lemma_split_bounds(leaves.len());
        let path = spec_path(leaves, index);
        if index < k {
            lemma_path_folds_to_root(leaves.take(k as int), index);
            assert(path.drop_last() == spec_path(leaves.take(k as int), index));
        } else {
            lemma_path_folds_to_root(leaves.skip(k as int), (index - k) as nat);
            assert(path.drop_last() == spec_path(leaves.skip(k as int), (index - k) as nat));
        }
    }
}

/// `2^j`.
pub open spec fn two_pow(j: nat) -> nat
    decreases j,
{
    if j == 0 {
        1
    } else {
        2 * two_pow((j - 1) as nat)
    }
}

proof fn lemma_two_pow_monotone(a: nat, b: nat)
    requires
        a <= b,
    ensures
        1 <= two_pow(a) <= two_pow(b),
    decreases b,
{
    if b > 0 {
        if a < b {
            lemma_two_pow_monotone(a, (b - 1) as nat);
        } else {
            lemma_two_pow_monotone((b - 1) as nat, (b - 1) as nat);
        }
    }
}

/// Doubling from a power of two stops at a power of two that is at least
/// half of `n`.
proof fn lemma_split_from_pow(k: nat, n: nat, i: nat)
    requires
        k == two_pow(i),
        1 <= k < n,
    ensures
        exists|e: nat| split_from(k, n) == two_pow(e) && n <= 2 * two_pow(e),
    decreases n - k,
{
    if 2 * k < n {
        lemma_split_from_pow(2 * k, n, i + 1);
    } else {
    }
}

/// `⌈log2 n⌉`, with `⌈log2 0⌉ = ⌈log2 1⌉ = 0`.
pub open spec fn spec_ceil_log2(n: nat) -> nat
    decreases n,
{
    if n <= 1 {
        0
    } else {
        1 + spec_ceil_log2(((n + 1) / 2) as nat)
    }
}

proof fn lemma_ceil_log2_covers(n: nat)
    ensures
        n <= two_pow(spec_ceil_log2(n)),
        spec_ceil_log2(n) <= n,
    decreases n,
{
    if n > 1 {
        lemma_ceil_log2_covers(((n + 1) / 2) as nat);
    }
}

/// An audit path within a tree of at most `2^j` leaves has at most `j` steps.
proof fn lemma_path_len_bound(leaves: Seq<Seq<u8>>, index: nat, j: nat)
    requires
        index < leaves.len() <= two_pow(j),
    ensures
        spec_path(leaves, index).len() <= j,
    decreases leaves.len(),
{
    let n = leaves.len();
    if n > 1 {
        let k = spec_split(n);
        lemma_split_bounds(n);
        lemma_split_from_pow(1, n, 0);
        let e = choose|e: nat| split_from(1, n) == two_pow(e) && n <= 2 * two_pow(e);
        if e >= j {
            lemma_two_pow_monotone(j, e);
        }
        let j1 = (j - 1) as nat;
        lemma_two_pow_monotone(e, j1);
        if index < k {
            lemma_path_len_bound(leaves.take(k as int), index, j1);
        } else {
            lemma_path_len_bound(leaves.skip(k as int), (index - k) as nat, j1);
        }
    }
}

/// The longest audit path [`verify_inclusion`] folds.
pub const MAX_PROOF_PATH: usize = 64;

/// The longest audit path accepted for a tree of `tree_size` leaves:
/// `⌈log2 tree_size⌉`, capped at [`MAX_PROOF_PATH`].
pub open spec fn spec_max_path(tree_size: nat) -> nat {
    if spec_ceil_log2(tree_size) > MAX_PROOF_PATH {
        MAX_PROOF_PATH as nat
    } else {
        spec_ceil_log2(tree_size)
    }
}

/// Whether an inclusion proof for leaf data `leaf` checks out against `root`:
/// the leaf index lies inside the tree, the path is no longer than such a tree
/// allows, and folding the leaf hash up the path gives the root.
pub open spec fn spec_verify_inclusion(
    leaf: Seq<u8>,
    leaf_index: nat,
    tree_size: nat,
    path: Seq<(Seq<u8>, bool)>,
    root: Seq<u8>,
) -> bool {
    &&& leaf_index < tree_size
    &&& path.len() <= spec_max_path(tree_size)
    &&& spec_fold(spec_hash_leaf(leaf), path) == root
}

proof fn lemma_two_pow_is_pow2(j: nat)
    ensures
        two_pow(j) == vstd::arithmetic::power2::pow2(j),
    decreases j,
{
    if j == 0 {
        vstd::arithmetic::power2::lemma2_to64();
    } else {
        lemma_two_pow_is_pow2((j - 1) as nat);
        vstd::arithmetic::power2::lemma_pow2_unfold(j);
    }
}

proof fn lemma_ceil_log2_within(n: nat, j: nat)
    requires
        n <= two_pow(j),
    ensures
        spec_ceil_log2(n) <= j,
    decreases n,
{
    if n > 1 {
        lemma_ceil_log2_within(((n + 1) / 2) as nat, (j - 1) as nat);
    }
}

/// Every audit path of a log that fits in memory is within the bound for the
/// log's size.
proof fn lemma_path_within_max(leaves: Seq<Seq<u8>>, index: nat)
    requires
        index < leaves.len() <= usize::MAX,
    ensures
        spec_path(leaves, index).len() <= spec_max_path(leaves.len()),
{
    lemma_ceil_log2_covers(leaves.len());
    lemma_path_len_bound(leaves, index, spec_ceil_log2(leaves.len()));
    lemma_two_pow_is_pow2(64);
    vstd::arithmetic::power2::lemma2_to64();
    lemma_ceil_log2_within(leaves.len(), 64);
}

/// `⌈log2 n⌉` capped at [`MAX_PROOF_PATH`].
fn max_path(n: usize) -> (r: usize)
    ensures
        r == spec_max_path(n as nat),
{
    let mut c: usize = 0;
    let mut m: usize = n;
    proof {
        lemma_ceil_log2_covers(n as nat);
    }
    while m > 1
        invariant
            c + spec_ceil_log2(m as nat) == spec_ceil_log2(n as nat),
            spec_ceil_log2(n as nat) <= n,
        decreases m,
    {
        m = m / 2 + m % 2;
        c = c + 1;
    }
    if c > MAX_PROOF_PATH {
        MAX_PROOF_PATH
    } else {
        c
    }
}

/// One sibling on an inclusion (audit) path: its digest and which side it
/// sits on relative to the running hash.
#[derive(Debug, Clone, Copy, PartialEq, Eq)]
pub struct PathStep {
    pub sibling: Digest,
    /// True if `sibling` is the *left* input to the parent node.
    pub sibling_is_left: bool,
}

/// A proof that a specific leaf is included in a tree of a given size.
#[derive(Debug, Clone, PartialEq, Eq)]
pub struct InclusionProof {
    pub leaf_index: usize,
    pub tree_size: usize,
    pub path: Vec<PathStep>,
}

/// The views of the stored leaves.
pub open spec fn leaves_view(entries: Seq<Vec<u8>>) -> Seq<Seq<u8>> {
    entries.map_values(|e: Vec<u8>| e@)
}

/// Root of `leaves[..]` (each entry is raw leaf data, hashed here).
fn subtree_root(leaves: &[Vec<u8>]) -> (r: Digest)
    ensures
        r@ == spec_root(leaves_view(leaves@)),
    decreases leaves@.len(),
{
    let n = leaves.len();
    if n == 0 {
        hash_leaf(&[])
    } else if n == 1 {
        hash_leaf(leaves[0].as_slice())
    } else {
        let k = split_point(n);
        proof {
            lemma_split_bounds(n as nat);
        }
        let left = vstd::slice::slice_subrange(leaves, 0, k);
        let right = vstd::slice::slice_subrange(leaves, k, n);
        assert(leaves_view(left@) =~= leaves_view(leaves@).take(k as int));
        assert(leaves_view(right@) =~= leaves_view(leaves@).skip(k as int));
        hash_node(&subtree_root(left), &subtree_root(right))
    }
}

/// Audit path (leaf-up) for `index` within `leaves[..]`.
fn subtree_path(leaves: &[Vec<u8>], index: usize) -> (r: Vec<PathStep>)
    ensures
        path_view(r@) == spec_path(leaves_view(leaves@), index as nat),
    decreases leaves@.len(),
{
    let n = leaves.len();
    if n <= 1 {
        let empty: Vec<PathStep> = Vec::new();
        return empty;
    }
    let k = split_point(n);
    proof {
        lemma_split_bounds(n as nat);
    }
    let left = vstd::slice::slice_subrange(leaves, 0, k);
    let right = vstd::slice::slice_subrange(leaves, k, n);
    assert(leaves_view(left@) =~= leaves_view(leaves@).take(k as int));
    assert(leaves_view(right@) =~= leaves_view(leaves@).skip(k as int));
    if index < k {
        let mut path = subtree_path(left, index);
        let ghost before = path@;
        path.push(PathStep { sibling: subtree_root(right), sibling_is_left: false });
        path
    } else {
        let mut path = subtree_path(right, index - k);
        let ghost before = path@;
        path.push(PathStep { sibling: subtree_root(left), sibling_is_left: true });
        path
    }
}

// ---------------------------------------------------------------------------
// Consistency proofs (RFC 6962 §2.1.2)
// ---------------------------------------------------------------------------

proof fn lemma_split_from_at_least(k: nat, n: nat)
    ensures
        split_from(k, n) >= k,
    decreases n - k,
{
    if k > 0 && k < n && 2 * k < n {
        lemma_split_from_at_least(2 * k, n);
    }
}

proof fn lemma_split_from_same(j: nat, m: nat, n: nat)
    requires
        1 <= j < m <= n,
        split_from(j, n) < m,
    ensures
        split_from(j, m) == split_from(j, n),
    decreases n - j,
{
    if 2 * j < n {
        lemma_split_from_at_least(2 * j, n);
        if 2 * j < m {
            lemma_split_from_same(2 * j, m, n);
        }
    }
}

/// A tree of `m` leaves, `spec_split(n) < m <= n`, splits where a tree of `n`
/// leaves does.
proof fn lemma_split_same(m: nat, n: nat)
    requires
        1 < m <= n,
        spec_split(n) < m,
    ensures
        spec_split(m) == spec_split(n),
{
    lemma_split_from_same(1, m, n);
}

/// The byte views of a list of digests.
pub open spec fn digests_view(ds: Seq<Digest>) -> Seq<Seq<u8>> {
    ds.map_values(|d: Digest| d@)
}

/// RFC 6962 `SUBPROOF(m, leaves, complete)`: the nodes that prove the first
/// `m` leaves are a prefix of `leaves`. `complete` says whether the first `m`
/// leaves form a subtree whose root the verifier already holds.
pub open spec fn spec_subproof(leaves: Seq<Seq<u8>>, m: nat, complete: bool) -> Seq<Seq<u8>>
    decreases leaves.len(),
{
    if m >= leaves.len() {
        if complete {
            Seq::empty()
        } else {
            seq![spec_root(leaves)]
        }
    } else if leaves.len() <= 1 {
        Seq::empty()
    } else {
        let k = spec_split(leaves.len());
        proof {
            lemma_split_bounds(leaves.len());
        }
        if m <= k {
            spec_subproof(leaves.take(k as int), m, complete).push(spec_root(leaves.skip(k as int)))
        } else {
            spec_subproof(leaves.skip(k as int), (m - k) as nat, false).push(spec_root(leaves.take(k as int)))
        }
    }
}

/// The consistency proof from size `m` to the whole of `leaves`: empty from
/// the empty tree, otherwise `SUBPROOF(m, leaves, true)`.
pub open spec fn spec_consistency_proof(leaves: Seq<Seq<u8>>, m: nat) -> Seq<Seq<u8>> {
    if m == 0 {
        Seq::empty()
    } else {
        spec_subproof(leaves, m, true)
    }
}

/// Replay a consistency (sub)proof for sizes `m <= n`: the roots of the first
/// `m` leaves and of all `n` leaves that the proof nodes determine, the last
/// node belonging to the top split. `old_root` stands for a complete old
/// subtree. `None` if the proof has the wrong number of nodes.
pub open spec fn spec_replay(m: nat, n: nat, complete: bool, proof: Seq<Seq<u8>>, old_root: Seq<u8>) -> Option<
    (Seq<u8>, Seq<u8>),
>
    decreases n,
{
    if m == n {
        if complete {
            if proof.len() == 0 {
                Some((old_root, old_root))
            } else {
                None
            }
        } else if proof.len() == 1 {
            Some((proof[0], proof[0]))
        } else {
            None
        }
    } else if m > n || m == 0 || proof.len() == 0 {
        None
    } else {
        let k = spec_split(n);
        proof {
            lemma_split_bounds(n);
        }
        let node = proof.last();
        if m <= k {
            match spec_replay(m, k, complete, proof.drop_last(), old_root) {
                Some((o, nw)) => Some((o, spec_hash_node(nw, node))),
                None => None,
            }
        } else {
            match spec_replay((m - k) as nat, (n - k) as nat, false, proof.drop_last(), old_root) {
                Some((o, nw)) => Some((spec_hash_node(node, o), spec_hash_node(node, nw))),
                None => None,
            }
        }
    }
}

/// Whether `proof` shows a tree of `old_size` leaves with root `old_root` is a
/// prefix of a tree of `new_size` leaves with root `new_root`. Equal sizes
/// need an empty proof and equal roots; the empty old tree needs an empty
/// proof; otherwise the proof must replay to both roots.
pub open spec fn spec_verify_consistency(
    old_root: Seq<u8>,
    new_root: Seq<u8>,
    proof: Seq<Seq<u8>>,
    old_size: nat,
    new_size: nat,
) -> bool {
    if old_size > new_size {
        false
    } else if old_size == new_size {
        proof.len() == 0 && old_root == new_root
    } else if old_size == 0 {
        proof.len() == 0
    } else {
        match spec_replay(old_size, new_size, true, proof, old_root) {
            Some((o, nw)) => o == old_root && nw == new_root,
            None => false,
        }
    }
}

/// Completeness of subproofs: replaying `SUBPROOF(m, leaves, complete)`
/// gives the roots of the first `m` leaves and of all of them.
proof fn lemma_subproof_replays(leaves: Seq<Seq<u8>>, m: nat, complete: bool, old_root: Seq<u8>)
    requires
        1 <= m <= leaves.len(),
        complete ==> old_root == spec_root(leaves.take(m as int)),
    ensures
        spec_replay(m, leaves.len(), complete, spec_subproof(leaves, m, complete), old_root) == Some(
            (spec_root(leaves.take(m as int)), spec_root(leaves)),
        ),
    decreases leaves.len(),
{
    let n = leaves.len();
    if m == n {
        assert(leaves.take(m as int) =~= leaves);
    } else {
        let k = spec_split(n);
        lemma_split_bounds(n);
        let left = leaves.take(k as int);
        let right = leaves.skip(k as int);
        let p = spec_subproof(leaves, m, complete);
        if m <= k {
            assert(left.take(m as int) =~= leaves.take(m as int));
            lemma_subproof_replays(left, m, complete, old_root);
            assert(p.drop_last() =~= spec_subproof(left, m, complete));
        } else {
            let mk = (m - k) as nat;
            lemma_subproof_replays(right, mk, false, old_root);
            assert(p.drop_last() =~= spec_subproof(right, mk, false));
            let head = leaves.take(m as int);
            lemma_split_same(m, n);
            assert(head.take(k as int) =~= left);
            assert(head.skip(k as int) =~= right.take(mk as int));
        }
    }
}

/// Completeness of consistency proofs: for every size `m` up to the log's
/// length, the log's consistency proof from `m` verifies between the root of
/// its first `m` leaves and its current root.
pub proof fn lemma_consistency_proof_verifies(leaves: Seq<Seq<u8>>, m: nat)
    requires
        m <= leaves.len(),
    ensures
        spec_verify_consistency(
            spec_root(leaves.take(m as int)),
            spec_root(leaves),
            spec_consistency_proof(leaves, m),
            m,
            leaves.len(),
        ),
{
    if m == leaves.len() {
        assert(leaves.take(m as int) =~= leaves);
    } else if m > 0 {
        lemma_subproof_replays(leaves, m, true, spec_root(leaves.take(m as int)));
    }
}

/// A consistency proof: the RFC 6962 §2.1.2 node list, last node topmost.
#[derive(Debug, Clone, PartialEq, Eq)]
pub struct ConsistencyProof {
    pub nodes: Vec<Digest>,
}

/// `SUBPROOF(m, leaves[..], complete)`.
fn subproof(leaves: &[Vec<u8>], m: usize, complete: bool) -> (r: Vec<Digest>)
    requires
        1 <= m <= leaves@.len(),
    ensures
        digests_view(r@) == spec_subproof(leaves_view(leaves@), m as nat, complete),
    decreases leaves@.len(),
{
    let n = leaves.len();
    if m == n {
        let mut out: Vec<Digest> = Vec::new();
        if !complete {
            out.push(subtree_root(leaves));
        }
        return out;
    }
    let k = split_point(n);
    proof {
        lemma_split_bounds(n as nat);
    }
    let left = vstd::slice::slice_subrange(leaves, 0, k);
    let right = vstd::slice::slice_subrange(leaves, k, n);
    assert(leaves_view(left@) =~= leaves_view(leaves@).take(k as int));
    assert(leaves_view(right@) =~= leaves_view(leaves@).skip(k as int));
    let mut out = if m <= k {
        subproof(left, m, complete)
    } else {
        subproof(right, m - k, false)
    };
    let ghost before = out@;
    let node = if m <= k {
        subtree_root(right)
    } else {
        subtree_root(left)
    };
    out.push(node);
    out
}

/// Replay a consistency (sub)proof; see [`spec_replay`].
fn replay(m: usize, n: usize, complete: bool, proof: &[Digest], old_root: &Digest) -> (r: Option<(Digest, Digest)>)
    ensures
        match spec_replay(m as nat, n as nat, complete, digests_view(proof@), old_root@) {
            Some((o, nw)) => r matches Some(p) && p.0@ == o && p.1@ == nw,
            None => r is None,
        },
    decreases n,
{
    let ghost pv = digests_view(proof@);
    if m == n {
        if complete {
            if proof.len() == 0 {
                return Some((*old_root, *old_root));
            }
            return None;
        }
        if proof.len() == 1 {
            return Some((proof[0], proof[0]));
        }
        return None;
    }
    if m > n || m == 0 || proof.len() == 0 {
        return None;
    }
    let k = split_point(n);
    proof {
        lemma_split_bounds(n as nat);
    }
    let last = proof.len() - 1;
    let node = proof[last];
    let rest = vstd::slice::slice_subrange(proof, 0, last);
    assert(digests_view(rest@) =~= pv.drop_last());
    if m <= k {
        match replay(m, k, complete, rest, old_root) {
            Some((o, nw)) => Some((o, hash_node(&nw, &node))),
            None => None,
        }
    } else {
        match replay(m - k, n - k, false, rest, old_root) {
            Some((o, nw)) => Some((hash_node(&node, &o), hash_node(&node, &nw))),
            None => None,
        }
    }
}

/// Verify that `proof` shows the tree of `old_size` leaves with root
/// `old_root` is a prefix of the tree of `new_size` leaves with root
/// `new_root`. Fails closed on every malformed, short or over-long proof.
pub fn verify_consistency(
    old_root: &Digest,
    new_root: &Digest,
    proof: &ConsistencyProof,
    old_size: usize,
    new_size: usize,
) -> (r: bool)
    ensures
        r == spec_verify_consistency(old_root@, new_root@, digests_view(proof.nodes@), old_size as nat, new_size as nat),
{
    if old_size > new_size {
        return false;
    }
    if old_size == new_size {
        let same = hash_eq(old_root, new_root);
        proof {
            if old_root@ == new_root@ {
                lemma_hash_view_eq(*old_root, *new_root);
            }
        }
        return proof.nodes.len() == 0 && same;
    }
    if old_size == 0 {
        return proof.nodes.len() == 0;
    }
    match replay(old_size, new_size, true, proof.nodes.as_slice(), old_root) {
        Some((o, nw)) => {
            let a = hash_eq(&o, old_root);
            let b = hash_eq(&nw, new_root);
            proof {
                if o@ == old_root@ {
                    lemma_hash_view_eq(o, *old_root);
                }
                if nw@ == new_root@ {
                    lemma_hash_view_eq(nw, *new_root);
                }
            }
            a && b
        },
        None => false,
    }
}

// ---------------------------------------------------------------------------
// The witness log
// ---------------------------------------------------------------------------

/// Append-only Merkle transparency log over [`ActionReceipt`] leaves.
#[derive(Debug, Clone)]
pub struct Witness {
    /// Canonical bytes of each appended receipt, in order.
    entries: Vec<Vec<u8>>,
}

impl View for Witness {
    type V = Seq<Seq<u8>>;

    /// The leaves appended so far, in order.
    closed spec fn view(&self) -> Seq<Seq<u8>> {
        leaves_view(self.entries@)
    }
}

impl Witness {
    /// An empty log.
    pub fn new() -> (w: Witness)
        ensures
            w@ == Seq::<Seq<u8>>::empty(),
    {
        let w = Witness { entries: Vec::new() };
        w
    }

    /// Current Merkle root — the value receipts and attestations commit to.
    pub fn root(&self) -> (r: Digest)
        ensures
            r@ == spec_root(self@),
    {
        subtree_root(self.entries.as_slice())
    }

    /// Number of leaves.
    pub fn len(&self) -> (r: usize)
        ensures
            r == self@.len(),
    {
        self.entries.len()
    }

    /// Whether no leaf has been appended.
    pub fn is_empty(&self) -> (r: bool)
        ensures
            r == (self@.len() == 0),
    {
        self.entries.len() == 0
    }

    /// Append a receipt, returning its leaf index.
    pub fn append(&mut self, receipt: &ActionReceipt) -> (r: usize)
        ensures
            r == old(self)@.len(),
            final(self)@ == old(self)@.push(spec_canonical_bytes(*receipt)),
    {
        let index = self.entries.len();
        self.entries.push(receipt.canonical_bytes());
        index
    }

    /// Inclusion proof for the leaf at `index`, or `None` if out of range.
    pub fn inclusion_proof(&self, index: usize) -> (r: Option<InclusionProof>)
        ensures
            index >= self@.len() ==> r is None,
            index < self@.len() ==> (r matches Some(p) && p.leaf_index == index && p.tree_size == self@.len()
                && path_view(p.path@) == spec_path(self@, index as nat)),
    {
        if index >= self.entries.len() {
            return None;
        }
        Some(InclusionProof {
            leaf_index: index,
            tree_size: self.entries.len(),
            path: subtree_path(self.entries.as_slice(), index),
        })
    }
}

impl Witness {
    /// Consistency proof that the tree of the first `old_size` leaves is a
    /// prefix of the current tree; `new_size` must be the current length.
    /// `None` unless `old_size <= new_size == len()`.
    pub fn consistency_proof(&self, old_size: usize, new_size: usize) -> (r: Option<ConsistencyProof>)
        ensures
            r is Some <==> old_size <= new_size && new_size == self@.len(),
            r matches Some(p) ==> digests_view(p.nodes@) == spec_consistency_proof(self@, old_size as nat),
    {
        if old_size > new_size || new_size != self.entries.len() {
            return None;
        }
        if old_size == 0 {
            let nodes: Vec<Digest> = Vec::new();
            return Some(ConsistencyProof { nodes });
        }
        Some(ConsistencyProof { nodes: subproof(self.entries.as_slice(), old_size, true) })
    }
}

/// Why a witness refused a submitted receipt.
#[derive(Debug, Clone, Copy, PartialEq, Eq)]
pub enum SubmitError {
    /// The receipt's `prev_root` is not the log's current root: it was built
    /// against a stale view of the log.
    StalePrevRoot,
}

/// Accept a submitted receipt into `witness`: the receipt must chain onto the
/// log's current root (`prev_root == root()`), otherwise it is refused and the
/// log is left unchanged; an accepted receipt is appended, and its leaf index
/// and inclusion proof against the new root are returned.
pub fn submit(witness: &mut Witness, receipt: &ActionReceipt) -> (r: Result<(usize, InclusionProof), SubmitError>)
    ensures
        receipt.prev_root@ != spec_root(old(witness)@) ==> r == Err::<(usize, InclusionProof), SubmitError>(
            SubmitError::StalePrevRoot,
        ) && final(witness)@ == old(witness)@,
        receipt.prev_root@ == spec_root(old(witness)@) ==> {
            &&& final(witness)@ == old(witness)@.push(spec_canonical_bytes(*receipt))
            &&& r matches Ok((i, p)) && i == old(witness)@.len() && p.leaf_index == i && p.tree_size
                == final(witness)@.len() && path_view(p.path@) == spec_path(final(witness)@, i as nat)
        },
{
    let current = witness.root();
    if !hash_eq(&receipt.prev_root, &current) {
        proof {
            if receipt.prev_root@ == current@ {
                lemma_hash_view_eq(receipt.prev_root, current);
            }
        }
        return Err(SubmitError::StalePrevRoot);
    }
    let index = witness.append(receipt);
    match witness.inclusion_proof(index) {
        Some(p) => Ok((index, p)),
        None => Err(SubmitError::StalePrevRoot),
    }
}

impl Default for Witness {
    fn default() -> (w: Witness)
        ensures
            w@ == Seq::<Seq<u8>>::empty(),
    {
        Witness::new()
    }
}

/// Verify that `receipt` is included in a tree whose root is `root`, using
/// `proof`: a leaf index outside the tree, or a path longer than
/// `⌈log2 tree_size⌉` (at most [`MAX_PROOF_PATH`]), is refused before any
/// hashing; otherwise fold the receipt's leaf hash up the path and compare.
/// Pure and stateless; any mismatch is `false`.
pub fn verify_inclusion(receipt: &ActionReceipt, proof: &InclusionProof, root: &Digest) -> (r: bool)
    ensures
        r == spec_verify_inclusion(
            spec_canonical_bytes(*receipt),
            proof.leaf_index as nat,
            proof.tree_size as nat,
            path_view(proof.path@),
            root@,
        ),
{
    // Reject a malformed or oversized proof before doing any hashing.
    if proof.leaf_index >= proof.tree_size || proof.path.len() > max_path(proof.tree_size) {
        return false;
    }
    let bytes = receipt.canonical_bytes();
    let mut acc = hash_leaf(bytes.as_slice());
    let ghost leaf = acc@;
    let ghost pv = path_view(proof.path@);
    let mut i: usize = 0;
    while i < proof.path.len()
        invariant
            i <= proof.path@.len(),
            pv == path_view(proof.path@),
            acc@ == spec_fold(leaf, pv.take(i as int)),
        decreases proof.path@.len() - i,
    {
        let step = proof.path[i];
        acc = if step.sibling_is_left {
            hash_node(&step.sibling, &acc)
        } else {
            hash_node(&acc, &step.sibling)
        };
        assert(pv.take(i + 1).drop_last() =~= pv.take(i as int));
        i = i + 1;
    }
    assert(pv.take(pv.len() as int) =~= pv);
    let eq = hash_eq(&acc, root);
    proof {
        if acc@ == root@ {
            lemma_hash_view_eq(acc, *root);
        }
    }
    eq
}

/// Every leaf of a log has an inclusion proof that verifies against the log's
/// root: for the `index`-th appended receipt, the proof `inclusion_proof(index)`
/// returns (its index, the log's size, and the audit path) is within bounds and
/// folds the receipt's leaf hash up to `root()`.
pub proof fn lemma_appended_receipt_verifies(log: Seq<Seq<u8>>, index: nat, receipt: ActionReceipt)
    requires
        index < log.len() <= usize::MAX,
        log[index as int] == spec_canonical_bytes(receipt),
    ensures
        spec_verify_inclusion(spec_canonical_bytes(receipt), index, log.len(), spec_path(log, index), spec_root(log)),
{
    lemma_path_folds_to_root(log, index);
    lemma_path_within_max(log, index);
}

} // verus!
