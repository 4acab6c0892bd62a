//! A sparse Merkle map over the 256-bit key space with compact
//! (non-)inclusion proofs. A revoked key's leaf is present; every other leaf is
//! a fixed empty constant, and empty subtrees collapse to per-height defaults.
use vstd::prelude::*;
use vstd::string::StringSliceAdditionalSpecFns;

use crate::hashing::{append_bytes, blake3_hash, hash_eq, lemma_hash_view_eq, spec_blake3};

verus! {

broadcast use vstd::array::group_array_axioms;

/// A 32-byte blake3 digest: a node hash, a leaf hash, or a key/path.
pub type Hash = [u8; 32];

const LEAF_TAG: u8 = 0x00;
const NODE_TAG: u8 = 0x01;

/// The empty-leaf constant's preimage: a fixed ASCII domain string, so its
/// input space cannot collide with a leaf (`0x00 ‖ key`) or a node (`0x01 ‖ …`).
pub const EMPTY_LEAF_DOMAIN: &'static str = "indexone-revmap/empty-leaf/v1";

/// Depth of the tree = key width in bits.
pub const DEPTH: usize = 256;

// ---------------------------------------------------------------------------
// Hashing
// ---------------------------------------------------------------------------

/// Hash of a present (revoked) leaf at `key`: `blake3(0x00 ‖ key)`.
pub open spec fn spec_leaf_hash(key: Seq<u8>) -> Seq<u8> {
    spec_blake3(seq![0x00u8] + key)
}

/// An internal node: `blake3(0x01 ‖ left ‖ right)`.
pub open spec fn spec_node_hash(left: Seq<u8>, right: Seq<u8>) -> Seq<u8> {
    spec_blake3(seq![0x01u8] + left + right)
}

/// The empty-leaf constant: `blake3(EMPTY_LEAF_DOMAIN)`.
pub open spec fn spec_empty_leaf() -> Seq<u8> {
    spec_blake3(EMPTY_LEAF_DOMAIN.spec_bytes())
}

/// Hash of a fully-empty subtree of the given height.
pub open spec fn spec_default(height: nat) -> Seq<u8>
    decreases height,
{
    if height == 0 {
        spec_empty_leaf()
    } else {
        spec_node_hash(spec_default((height - 1) as nat), spec_default((height - 1) as nat))
    }
}

fn leaf_hash(key: &Hash) -> (r: Hash)
    ensures
        r@ == spec_leaf_hash(key@),
{
    let mut buf: Vec<u8> = Vec::with_capacity(33);
    buf.push(LEAF_TAG);
    append_bytes(&mut buf, key.as_slice());
    blake3_hash(buf.as_slice())
}

fn node_hash(left: &Hash, right: &Hash) -> (r: Hash)
    ensures
        r@ == spec_node_hash(left@, right@),
{
    let mut buf: Vec<u8> = Vec::with_capacity(65);
    buf.push(NODE_TAG);
    append_bytes(&mut buf, left.as_slice());
    append_bytes(&mut buf, right.as_slice());
    blake3_hash(buf.as_slice())
}

fn empty_leaf() -> (r: Hash)
    ensures
        r@ == spec_empty_leaf(),
{
    blake3_hash(EMPTY_LEAF_DOMAIN.as_bytes())
}

// ---------------------------------------------------------------------------
// Bits and key order
// ---------------------------------------------------------------------------

/// Bit `i` of a 256-bit key, MSB-first (bit 0 is the top of the tree).
pub open spec fn spec_bit(key: Seq<u8>, i: int) -> u8 {
    (key[i / 8] >> ((7 - i % 8) as u8)) & 1u8
}

proof fn lemma_bit_is_binary(x: u8, s: u8)
    ensures
        (x >> s) & 1u8 == 0u8 || (x >> s) & 1u8 == 1u8,
{
    assert((x >> s) & 1u8 == 0u8 || (x >> s) & 1u8 == 1u8) by (bit_vector);
}

/// Every bit is 0 or 1.
pub proof fn lemma_spec_bit_binary(key: Seq<u8>, i: int)
    ensures
        spec_bit(key, i) == 0u8 || spec_bit(key, i) == 1u8,
{
    lemma_bit_is_binary(key[i / 8], (7 - i % 8) as u8);
}

fn bit(key: &Hash, i: usize) -> (r: u8)
    requires
        i < DEPTH,
    ensures
        r == spec_bit(key@, i as int),
{
    (key[i / 8] >> ((7 - (i % 8)) as u8)) & 1
}

proof fn lemma_byte_from_bits(x: u8, y: u8)
    requires
        (x >> 7u8) & 1u8 == (y >> 7u8) & 1u8,
        (x >> 6u8) & 1u8 == (y >> 6u8) & 1u8,
        (x >> 5u8) & 1u8 == (y >> 5u8) & 1u8,
        (x >> 4u8) & 1u8 == (y >> 4u8) & 1u8,
        (x >> 3u8) & 1u8 == (y >> 3u8) & 1u8,
        (x >> 2u8) & 1u8 == (y >> 2u8) & 1u8,
        (x >> 1u8) & 1u8 == (y >> 1u8) & 1u8,
        (x >> 0u8) & 1u8 == (y >> 0u8) & 1u8,
    ensures
        x == y,
{
    assert(x == y) by (bit_vector)
        requires
            (x >> 7u8) & 1u8 == (y >> 7u8) & 1u8,
            (x >> 6u8) & 1u8 == (y >> 6u8) & 1u8,
            (x >> 5u8) & 1u8 == (y >> 5u8) & 1u8,
            (x >> 4u8) & 1u8 == (y >> 4u8) & 1u8,
            (x >> 3u8) & 1u8 == (y >> 3u8) & 1u8,
            (x >> 2u8) & 1u8 == (y >> 2u8) & 1u8,
            (x >> 1u8) & 1u8 == (y >> 1u8) & 1u8,
            (x >> 0u8) & 1u8 == (y >> 0u8) & 1u8,
    ;
}

/// Two keys that agree on all 256 bits are the same key.
pub proof fn lemma_bits_determine_key(a: Hash, b: Hash)
    requires
        forall|i: int| 0 <= i < 256 ==> #[trigger] spec_bit(a@, i) == spec_bit(b@, i),
    ensures
        a == b,
{
    assert forall|j: int| 0 <= j < 32 implies a[j] == b[j] by {
        assert(spec_bit(a@, 8 * j + 0) == spec_bit(b@, 8 * j + 0));
        assert(spec_bit(a@, 8 * j + 1) == spec_bit(b@, 8 * j + 1));
        assert(spec_bit(a@, 8 * j + 2) == spec_bit(b@, 8 * j + 2));
        assert(spec_bit(a@, 8 * j + 3) == spec_bit(b@, 8 * j + 3));
        assert(spec_bit(a@, 8 * j + 4) == spec_bit(b@, 8 * j + 4));
        assert(spec_bit(a@, 8 * j + 5) == spec_bit(b@, 8 * j + 5));
        assert(spec_bit(a@, 8 * j + 6) == spec_bit(b@, 8 * j + 6));
        assert(spec_bit(a@, 8 * j + 7) == spec_bit(b@, 8 * j + 7));
        lemma_byte_from_bits(a@[j], b@[j]);
    }
}

/// Lexicographic byte order on keys, from byte `i` on.
pub open spec fn lex_lt_from(a: Seq<u8>, b: Seq<u8>, i: nat) -> bool
    decreases 32 - i,
{
    if i >= 32 {
        false
    } else if a[i as int] < b[i as int] {
        true
    } else if a[i as int] > b[i as int] {
        false
    } else {
        lex_lt_from(a, b, i + 1)
    }
}

/// The order the map keeps its keys in: lexicographic by byte.
pub open spec fn hash_lt(a: Hash, b: Hash) -> bool {
    lex_lt_from(a@, b@, 0)
}

proof fn lemma_lex_irreflexive(a: Seq<u8>, i: nat)
    ensures
        !lex_lt_from(a, a, i),
    decreases 32 - i,
{
    if i < 32 {
        lemma_lex_irreflexive(a, i + 1);
    }
}

proof fn lemma_lex_trans(a: Seq<u8>, b: Seq<u8>, c: Seq<u8>, i: nat)
    requires
        lex_lt_from(a, b, i),
        lex_lt_from(b, c, i),
    ensures
        lex_lt_from(a, c, i),
    decreases 32 - i,
{
    if i < 32 && a[i as int] == b[i as int] && b[i as int] == c[i as int] {
        lemma_lex_trans(a, b, c, i + 1);
    }
}

proof fn lemma_lex_total(a: Seq<u8>, b: Seq<u8>, i: nat)
    requires
        a.len() == 32,
        b.len() == 32,
    ensures
        lex_lt_from(a, b, i) || lex_lt_from(b, a, i) || (forall|j: int| i <= j < 32 ==> a[j] == b[j]),
    decreases 32 - i,
{
    if i < 32 {
        lemma_lex_total(a, b, i + 1);
    }
}

proof fn lemma_lex_asym(a: Seq<u8>, b: Seq<u8>, i: nat)
    requires
        lex_lt_from(a, b, i),
    ensures
        !lex_lt_from(b, a, i),
    decreases 32 - i,
{
    if i < 32 && a[i as int] == b[i as int] {
        lemma_lex_asym(a, b, i + 1);
    }
}

/// `hash_lt` is a strict total order on keys.
pub proof fn lemma_hash_order(a: Hash, b: Hash, c: Hash)
    ensures
        !hash_lt(a, a),
        hash_lt(a, b) ==> !hash_lt(b, a),
        hash_lt(a, b) && hash_lt(b, c) ==> hash_lt(a, c),
        a != b ==> hash_lt(a, b) || hash_lt(b, a),
{
    lemma_lex_irreflexive(a@, 0);
    if hash_lt(a, b) {
        lemma_lex_asym(a@, b@, 0);
    }
    if hash_lt(a, b) && hash_lt(b, c) {
        lemma_lex_trans(a@, b@, c@, 0);
    }
    lemma_lex_total(a@, b@, 0);
    if !hash_lt(a, b) && !hash_lt(b, a) {
        assert(a =~= b);
    }
}

fn hash_lt_exec(a: &Hash, b: &Hash) -> (r: bool)
    ensures
        r == hash_lt(*a, *b),
{
    let mut i: usize = 0;
    while i < 32
        invariant
            i <= 32,
            lex_lt_from(a@, b@, 0) == lex_lt_from(a@, b@, i as nat),
        decreases 32 - i,
    {
        if a[i] < b[i] {
            return true;
        }
        if a[i] > b[i] {
            return false;
        }
        i = i + 1;
    }
    false
}

/// Keys strictly increasing (so, in particular, unique).
pub open spec fn sorted(keys: Seq<Hash>) -> bool {
    forall|i: int, j: int| 0 <= i < j < keys.len() ==> hash_lt(#[trigger] keys[i], #[trigger] keys[j])
}

/// Binary search in strictly sorted keys: `Ok(i)` if found at `i`, else
/// `Err(i)` with `i` the insertion point that keeps the keys sorted.
fn search(keys: &Vec<Hash>, key: &Hash) -> (r: Result<usize, usize>)
    requires
        sorted(keys@),
    ensures
        match r {
            Ok(i) => i < keys@.len() && keys@[i as int] == *key,
            Err(i) => i <= keys@.len()
                && (forall|j: int| 0 <= j < i ==> hash_lt(#[trigger] keys@[j], *key))
                && (forall|j: int| i <= j < keys@.len() ==> hash_lt(*key, #[trigger] keys@[j])),
        },
{
    let mut lo: usize = 0;
    let mut hi: usize = keys.len();
    while lo < hi
        invariant
            lo <= hi <= keys@.len(),
            sorted(keys@),
            forall|j: int| 0 <= j < lo ==> hash_lt(#[trigger] keys@[j], *key),
            forall|j: int| hi <= j < keys@.len() ==> hash_lt(*key, #[trigger] keys@[j]),
        decreases hi - lo,
    {
        let mid = lo + (hi - lo) / 2;
        if hash_eq(&keys[mid], key) {
            return Ok(mid);
        }
        if hash_lt_exec(&keys[mid], key) {
            assert forall|j: int| 0 <= j < mid + 1 implies hash_lt(#[trigger] keys@[j], *key) by {
                if j < mid {
                    lemma_hash_order(keys@[j], keys@[mid as int], *key);
                }
            }
            lo = mid + 1;
        } else {
            proof {
                lemma_hash_order(keys@[mid as int], *key, *key);
            }
            assert forall|j: int| mid <= j < keys@.len() implies hash_lt(*key, #[trigger] keys@[j]) by {
                if j > mid {
                    lemma_hash_order(*key, keys@[mid as int], keys@[j]);
                }
            }
            hi = mid;
        }
    }
    Err(lo)
}

// ---------------------------------------------------------------------------
// Default subtrees
// ---------------------------------------------------------------------------

/// Precomputed hash of a fully-empty subtree, indexed by height:
/// `default[0]` is the empty leaf, `default[h] = node(default[h-1], default[h-1])`.
struct Defaults(Vec<Hash>);

impl Defaults {
    spec fn wf(&self) -> bool {
        &&& self.0@.len() == DEPTH + 1
        &&& forall|h: int| 0 <= h <= DEPTH ==> (#[trigger] self.0@[h])@ == spec_default(h as nat)
    }

    fn new() -> (d: Defaults)
        ensures
            d.wf(),
    {
        let mut d: Vec<Hash> = Vec::with_capacity(DEPTH + 1);
        d.push(empty_leaf());
        let mut h: usize = 1;
        while h <= DEPTH
            invariant
                1 <= h <= DEPTH + 1,
                d@.len() == h,
                forall|i: int| 0 <= i < h ==> (#[trigger] d@[i])@ == spec_default(i as nat),
            decreases DEPTH + 1 - h,
        {
            let prev = d[h - 1];
            d.push(node_hash(&prev, &prev));
            h = h + 1;
        }
        Defaults(d)
    }

    /// The hash of an empty subtree of the given `height`.
    fn at_height(&self, height: usize) -> (r: Hash)
        requires
            self.wf(),
            height <= DEPTH,
        ensures
            r@ == spec_default(height as nat),
    {
        self.0[height]
    }

    /// The default hash of a node at `depth` (its subtree has height `DEPTH - depth`).
    fn at_depth(&self, depth: usize) -> (r: Hash)
        requires
            self.wf(),
            depth <= DEPTH,
        ensures
            r@ == spec_default((DEPTH - depth) as nat),
    {
        self.0[DEPTH - depth]
    }
}

// ---------------------------------------------------------------------------
// The map and its root
// ---------------------------------------------------------------------------

/// Keys whose bit `depth` equals `b`.
pub open spec fn bit_is(depth: int, b: u8) -> spec_fn(Hash) -> bool {
    |k: Hash| spec_bit(k@, depth) == b
}

/// The part of `s` on the `b` side of bit `depth`.
pub open spec fn side(s: Set<Hash>, depth: int, b: u8) -> Set<Hash> {
    s.filter(bit_is(depth, b))
}

/// Root of the subtree at `depth` that holds exactly the keys `s`: an empty
/// subtree is its default; at full depth, the single leaf; otherwise the node
/// over the 0-side and the 1-side of bit `depth`.
pub open spec fn set_root(s: Set<Hash>, depth: nat) -> Seq<u8>
    decreases 256 - depth,
{
    if s == Set::<Hash>::empty() {
        spec_default((256 - depth) as nat)
    } else if depth >= 256 {
        spec_leaf_hash(s.choose()@)
    } else {
        spec_node_hash(set_root(side(s, depth as int, 0u8), depth + 1), set_root(side(s, depth as int, 1u8), depth + 1))
    }
}

/// The Merkle root of the map whose revoked keys are `s`.
pub open spec fn map_root(s: Set<Hash>) -> Seq<u8> {
    set_root(s, 0)
}

/// All keys of `s` agree with each other on the bits above `depth`.
pub open spec fn agree_below(s: Set<Hash>, depth: int) -> bool {
    forall|a: Hash, b: Hash, i: int|
        #![trigger s.contains(a), s.contains(b), spec_bit(a@, i)]
        s.contains(a) && s.contains(b) && 0 <= i < depth ==> spec_bit(a@, i) == spec_bit(b@, i)
}

proof fn lemma_filter_to_set(s: Seq<Hash>, p: spec_fn(Hash) -> bool)
    ensures
        s.filter(p).to_set() == s.to_set().filter(p),
{
    assert forall|x: Hash| #[trigger] s.filter(p).to_set().contains(x) <==> s.to_set().filter(p).contains(x) by {
        if s.filter(p).contains(x) {
            s.lemma_filter_contains_rev(p, x);
        }
        if s.contains(x) && p(x) {
            let i = choose|i: int| 0 <= i < s.len() && s[i] == x;
            s.lemma_filter_contains(p, i);
        }
    }
}

/// The two sides of bit `depth` keep agreeing one bit further down.
proof fn lemma_side_agrees(s: Set<Hash>, depth: int, b: u8)
    requires
        agree_below(s, depth),
        0 <= depth,
    ensures
        agree_below(side(s, depth, b), depth + 1),
{
    let t = side(s, depth, b);
    assert forall|x: Hash, y: Hash, i: int|
        #![trigger t.contains(x), t.contains(y), spec_bit(x@, i)]
        t.contains(x) && t.contains(y) && 0 <= i < depth + 1 implies spec_bit(x@, i) == spec_bit(y@, i) by {}
}

/// Split `keys` by bit `depth`, preserving order: (0-side, 1-side).
fn split_by_bit(keys: &[Hash], depth: usize) -> (r: (Vec<Hash>, Vec<Hash>))
    requires
        depth < DEPTH,
    ensures
        r.0@ == keys@.filter(bit_is(depth as int, 0u8)),
        r.1@ == keys@.filter(bit_is(depth as int, 1u8)),
{
    let mut left: Vec<Hash> = Vec::new();
    let mut right: Vec<Hash> = Vec::new();
    let mut i: usize = 0;
    while i < keys.len()
        invariant
            depth < DEPTH,
            i <= keys@.len(),
            left@ == keys@.subrange(0, i as int).filter(bit_is(depth as int, 0u8)),
            right@ == keys@.subrange(0, i as int).filter(bit_is(depth as int, 1u8)),
        decreases keys@.len() - i,
    {
        let k = keys[i];
        assert(keys@.subrange(0, i + 1) == keys@.subrange(0, i as int).push(k));
        proof {
            keys@.subrange(0, i as int).lemma_filter_push(k, bit_is(depth as int, 0u8));
            keys@.subrange(0, i as int).lemma_filter_push(k, bit_is(depth as int, 1u8));
        }
        if bit(&k, depth) == 0 {
            left.push(k);
        } else {
            proof { lemma_spec_bit_binary(k@, depth as int); }
            right.push(k);
        }
        i = i + 1;
    }
    assert(keys@.subrange(0, keys@.len() as int) == keys@);
    (left, right)
}

/// A sparse Merkle map from 256-bit key to "revoked". Holds only the revoked
/// keys, kept sorted; everything else is empty by construction.
pub struct RevocationMap {
    keys: Vec<Hash>,
    defaults: Defaults,
}

impl View for RevocationMap {
    type V = Set<Hash>;

    /// The set of revoked keys.
    closed spec fn view(&self) -> Set<Hash> {
        self.keys@.to_set()
    }
}

impl RevocationMap {
    #[verifier::type_invariant]
    spec fn inv(&self) -> bool {
        &&& sorted(self.keys@)
        &&& self.defaults.wf()
    }

    /// An empty map: no key is revoked.
    pub fn new() -> (m: RevocationMap)
        ensures
            m@ == Set::<Hash>::empty(),
    {
        let m = RevocationMap { keys: Vec::new(), defaults: Defaults::new() };
        m
    }

    /// Mark `key` revoked. Idempotent; keeps the key set sorted.
    pub fn revoke(&mut self, key: Hash)
        ensures
            final(self)@ == old(self)@.insert(key),
    {
        proof { use_type_invariant(&*self); }
        match search(&self.keys, &key) {
            Ok(i) => {
            },
            Err(pos) => {
                let ghost old_keys = self.keys@;
                let ghost new_keys = old_keys.insert(pos as int, key);
                proof {
                    assert forall|i: int, j: int| 0 <= i < j < new_keys.len() implies hash_lt(#[trigger] new_keys[i], #[trigger] new_keys[j]) by {
                        if j < pos {
                        } else if i > pos {
                        } else if i == pos {
                        } else if j == pos {
                        } else {
                            lemma_hash_order(old_keys[i], key, old_keys[j - 1]);
                        }
                    }
                    assert forall|x: Hash| #[trigger] new_keys.to_set().contains(x) <==> old_keys.to_set().insert(key).contains(x) by {
                        if old_keys.contains(x) {
                            let k = choose|k: int| 0 <= k < old_keys.len() && old_keys[k] == x;
                            if k < pos {
                                assert(new_keys[k] == x);
                            } else {
                                assert(new_keys[k + 1] == x);
                            }
                        }
                        if x == key {
                            assert(new_keys[pos as int] == x);
                        }
                    }
                }
                let mut keys: Vec<Hash> = Vec::new();
                std::mem::swap(&mut keys, &mut self.keys);
                keys.insert(pos, key);
                self.keys = keys;
            },
        }
    }

    /// Whether `key` is revoked.
    pub fn contains(&self, key: &Hash) -> (r: bool)
        ensures
            r == self@.contains(*key),
    {
        proof { use_type_invariant(self); }
        match search(&self.keys, key) {
            Ok(_) => true,
            Err(pos) => {
                proof {
                    if self.keys@.contains(*key) {
                        lemma_hash_order(*key, *key, *key);
                    }
                }
                false
            },
        }
    }

    /// The current Merkle root over the whole 256-bit key space.
    pub fn root(&self) -> (r: Hash)
        ensures
            r@ == map_root(self@),
    {
        proof { use_type_invariant(self); }
        self.subtree_root(self.keys.as_slice(), 0)
    }

    /// Root of the subtree at `depth` spanning exactly the given keys.
    fn subtree_root(&self, keys: &[Hash], depth: usize) -> (r: Hash)
        requires
            self.defaults.wf(),
            depth <= DEPTH,
            agree_below(keys@.to_set(), depth as int),
        ensures
            r@ == set_root(keys@.to_set(), depth as nat),
        decreases DEPTH - depth,
    {
        let ghost s = keys@.to_set();
        if keys.len() == 0 {
            assert(s =~= Set::<Hash>::empty());
            return self.defaults.at_depth(depth);
        }
        assert(s.contains(keys@[0]));
        if depth == DEPTH {
            proof {
                let c = s.choose();
                assert forall|i: int| 0 <= i < 256 implies #[trigger] spec_bit(keys@[0]@, i) == spec_bit(c@, i) by {}
                lemma_bits_determine_key(keys@[0], c);
            }
            return leaf_hash(&keys[0]);
        }
        let (left, right) = split_by_bit(keys, depth);
        proof {
            lemma_filter_to_set(keys@, bit_is(depth as int, 0u8));
            lemma_filter_to_set(keys@, bit_is(depth as int, 1u8));
            lemma_side_agrees(s, depth as int, 0u8);
            lemma_side_agrees(s, depth as int, 1u8);
        }
        let l = self.subtree_root(left.as_slice(), depth + 1);
        let r = self.subtree_root(right.as_slice(), depth + 1);
        node_hash(&l, &r)
    }
}

impl Default for RevocationMap {
    fn default() -> (m: RevocationMap)
        ensures
            m@ == Set::<Hash>::empty(),
    {
        RevocationMap::new()
    }
}

// ---------------------------------------------------------------------------
// Proofs: paths, compaction, verification
// ---------------------------------------------------------------------------

/// The views of a list of hashes.
pub open spec fn hv(v: Seq<Hash>) -> Seq<Seq<u8>> {
    v.map_values(|h: Hash| h@)
}

/// The keys of `s` that share the first `d` bits of `key`.
pub open spec fn path_set(s: Set<Hash>, key: Hash, d: nat) -> Set<Hash>
    decreases d,
{
    if d == 0 {
        s
    } else {
        side(path_set(s, key, (d - 1) as nat), d - 1, spec_bit(key@, d - 1))
    }
}

/// Among the keys sharing `key`'s first `d` bits, those on the other side of
/// bit `d` from `key`.
pub open spec fn off_path(s: Set<Hash>, key: Hash, d: nat) -> Set<Hash> {
    if spec_bit(key@, d as int) == 0u8 {
        side(path_set(s, key, d), d as int, 1u8)
    } else {
        side(path_set(s, key, d), d as int, 0u8)
    }
}

/// The sibling of the depth-`d` node on `key`'s path: the root of the
/// off-path subtree one level down.
pub open spec fn spec_sibling(s: Set<Hash>, key: Hash, d: nat) -> Seq<u8> {
    set_root(off_path(s, key, d), d + 1)
}

/// The full sibling path of `key` in the map `s`, indexed by depth.
pub open spec fn spec_full_path(s: Set<Hash>, key: Hash) -> Seq<Seq<u8>> {
    Seq::new(256, |d: int| spec_sibling(s, key, d as nat))
}

/// The non-default siblings of `full` from depth `d` on, in depth order.
pub open spec fn compact_from(full: Seq<Seq<u8>>, d: nat) -> Seq<Seq<u8>>
    decreases 256 - d,
{
    if d >= 256 {
        Seq::empty()
    } else if full[d as int] == spec_default((255 - d) as nat) {
        compact_from(full, d + 1)
    } else {
        seq![full[d as int]] + compact_from(full, d + 1)
    }
}

/// Expand a bitmap and compacted siblings back into the sibling path from
/// depth `d` on: a set bit takes the next given sibling, an unset bit the
/// locally recomputed default. `None` if the counts disagree.
pub open spec fn expand_from(present: Seq<u8>, sibs: Seq<Seq<u8>>, d: nat) -> Option<Seq<Seq<u8>>>
    decreases 256 - d,
{
    if d >= 256 {
        if sibs.len() == 0 {
            Some(Seq::empty())
        } else {
            None
        }
    } else if spec_bit(present, d as int) == 1u8 {
        if sibs.len() == 0 {
            None
        } else {
            match expand_from(present, sibs.drop_first(), d + 1) {
                Some(r) => Some(seq![sibs[0]] + r),
                None => None,
            }
        }
    } else {
        match expand_from(present, sibs, d + 1) {
            Some(r) => Some(seq![spec_default((255 - d) as nat)] + r),
            None => None,
        }
    }
}

/// The full path a proof expands to, or `None` if it is malformed (a bitmap
/// that is not 32 bytes, or a bit count that disagrees with the siblings).
pub open spec fn spec_expand(present: Seq<u8>, sibs: Seq<Seq<u8>>) -> Option<Seq<Seq<u8>>> {
    if present.len() != 32 {
        None
    } else {
        expand_from(present, sibs, 0)
    }
}

/// Fold `leaf` up `key`'s path from the bottom to depth `d`.
pub open spec fn spec_up(key: Seq<u8>, leaf: Seq<u8>, full: Seq<Seq<u8>>, d: nat) -> Seq<u8>
    decreases 256 - d,
{
    if d >= 256 {
        leaf
    } else {
        let below = spec_up(key, leaf, full, d + 1);
        if spec_bit(key, d as int) == 0u8 {
            spec_node_hash(below, full[d as int])
        } else {
            spec_node_hash(full[d as int], below)
        }
    }
}

/// The root a proof folds `leaf` at `key` up to, or `None` if it is malformed.
pub open spec fn spec_recompute(key: Seq<u8>, leaf: Seq<u8>, present: Seq<u8>, sibs: Seq<Seq<u8>>) -> Option<Seq<u8>> {
    match spec_expand(present, sibs) {
        Some(full) => Some(spec_up(key, leaf, full, 0)),
        None => None,
    }
}

/// `(present, sibs)` is exactly the compact proof of `key` in the map `s`:
/// bit `d` is set iff the depth-`d` sibling is not the default, and the
/// siblings are the non-default ones in depth order.
pub open spec fn proof_for(s: Set<Hash>, key: Hash, present: Seq<u8>, sibs: Seq<Seq<u8>>) -> bool {
    &&& present.len() == 32
    &&& forall|d: int| 0 <= d < 256 ==> (#[trigger] spec_bit(present, d) == 1u8)
            == (spec_full_path(s, key)[d] != spec_default((255 - d) as nat))
    &&& sibs == compact_from(spec_full_path(s, key), 0)
}

proof fn lemma_path_set_agrees(s: Set<Hash>, key: Hash, d: nat)
    ensures
        forall|k: Hash, i: int| #![trigger path_set(s, key, d).contains(k), spec_bit(k@, i)]
            path_set(s, key, d).contains(k) && 0 <= i < d ==> spec_bit(k@, i) == spec_bit(key@, i),
        forall|k: Hash| #[trigger] path_set(s, key, d).contains(k) ==> s.contains(k),
        s.contains(key) ==> path_set(s, key, d).contains(key),
    decreases d,
{
    if d > 0 {
        lemma_path_set_agrees(s, key, (d - 1) as nat);
        let prev = path_set(s, key, (d - 1) as nat);
        assert forall|k: Hash| #[trigger] path_set(s, key, d).contains(k) implies prev.contains(k)
            && spec_bit(k@, d - 1) == spec_bit(key@, d - 1) by {}
    }
}

proof fn lemma_empty_side(depth: int, b: u8)
    ensures
        side(Set::<Hash>::empty(), depth, b) == Set::<Hash>::empty(),
{
}

/// The root of the subtree on `key`'s path at depth `d` is what folding the
/// leaf slot's value up the sibling path gives.
proof fn lemma_path_fold(s: Set<Hash>, key: Hash, d: nat)
    requires
        d <= 256,
    ensures
        set_root(path_set(s, key, d), d) == spec_up(
            key@,
            if s.contains(key) { spec_leaf_hash(key@) } else { spec_empty_leaf() },
            spec_full_path(s, key),
            d,
        ),
    decreases 256 - d,
{
    let p = path_set(s, key, d);
    let leaf = if s.contains(key) { spec_leaf_hash(key@) } else { spec_empty_leaf() };
    lemma_path_set_agrees(s, key, d);
    if d == 256 {
        if s.contains(key) {
            let c = p.choose();
            assert forall|i: int| 0 <= i < 256 implies #[trigger] spec_bit(c@, i) == spec_bit(key@, i) by {}
            lemma_bits_determine_key(c, key);
        } else {
            assert forall|k: Hash| !p.contains(k) by {
                if p.contains(k) {
                    assert forall|i: int| 0 <= i < 256 implies #[trigger] spec_bit(k@, i) == spec_bit(key@, i) by {}
                    lemma_bits_determine_key(k, key);
                }
            }
            assert(p =~= Set::<Hash>::empty());
        }
    } else {
        lemma_path_fold(s, key, d + 1);
        lemma_spec_bit_binary(key@, d as int);
        let full = spec_full_path(s, key);
        if p == Set::<Hash>::empty() {
            lemma_empty_side(d as int, 0u8);
            lemma_empty_side(d as int, 1u8);
        }
    }
}

proof fn lemma_expand_compact(present: Seq<u8>, full: Seq<Seq<u8>>, d: nat)
    requires
        d <= 256,
        full.len() == 256,
        forall|e: int| d <= e < 256 ==> (#[trigger] spec_bit(present, e) == 1u8)
            == (full[e] != spec_default((255 - e) as nat)),
    ensures
        expand_from(present, compact_from(full, d), d) == Some(full.subrange(d as int, 256)),
    decreases 256 - d,
{
    if d == 256 {
    } else {
        lemma_expand_compact(present, full, d + 1);
        let rest = compact_from(full, d + 1);
        if full[d as int] != spec_default((255 - d) as nat) {
            assert((seq![full[d as int]] + rest).drop_first() =~= rest);
        }
    }
}

/// Completeness for revoked keys: the exact compact proof of a revoked `key`
/// folds its present leaf up to the map's root.
pub proof fn lemma_inclusion_proof_verifies(s: Set<Hash>, key: Hash, present: Seq<u8>, sibs: Seq<Seq<u8>>)
    requires
        s.contains(key),
        proof_for(s, key, present, sibs),
    ensures
        spec_recompute(key@, spec_leaf_hash(key@), present, sibs) == Some(map_root(s)),
{
    let full = spec_full_path(s, key);
    lemma_expand_compact(present, full, 0);
    assert(full.subrange(0, 256) =~= full);
    lemma_path_fold(s, key, 0);
}

/// Completeness for live keys: the exact compact proof of an unrevoked `key`
/// folds the empty leaf up to the map's root.
pub proof fn lemma_non_inclusion_proof_verifies(s: Set<Hash>, key: Hash, present: Seq<u8>, sibs: Seq<Seq<u8>>)
    requires
        !s.contains(key),
        proof_for(s, key, present, sibs),
    ensures
        spec_recompute(key@, spec_empty_leaf(), present, sibs) == Some(map_root(s)),
{
    let full = spec_full_path(s, key);
    lemma_expand_compact(present, full, 0);
    assert(full.subrange(0, 256) =~= full);
    lemma_path_fold(s, key, 0);
}

/// The root is a function of the revoked set alone: the order in which keys
/// are revoked, and repeated revocations, do not change it.
pub proof fn lemma_revocation_order_irrelevant(s: Set<Hash>, a: Hash, b: Hash)
    ensures
        map_root(s.insert(a).insert(b)) == map_root(s.insert(b).insert(a)),
        map_root(s.insert(a).insert(a)) == map_root(s.insert(a)),
{
    assert(s.insert(a).insert(b) =~= s.insert(b).insert(a));
    assert(s.insert(a).insert(a) =~= s.insert(a));
}

/// Revoking `key` marks it revoked and changes no other key's status; revoking
/// a key that is already revoked leaves the root unchanged.
pub proof fn lemma_revoke_tracks_membership(s: Set<Hash>, key: Hash, other: Hash)
    ensures
        s.insert(key).contains(key),
        other != key ==> (s.insert(key).contains(other) == s.contains(other)),
        s.contains(key) ==> map_root(s.insert(key)) == map_root(s),
{
    if s.contains(key) {
        assert(s.insert(key) =~= s);
    }
}

/// An empty map's root is the all-empty default of the full height.
pub proof fn lemma_empty_map_root()
    ensures
        map_root(Set::<Hash>::empty()) == spec_default(256),
{
}

/// A proof whose bitmap is not exactly 256 bits never verifies.
pub proof fn lemma_malformed_bitmap_rejected(key: Seq<u8>, leaf: Seq<u8>, present: Seq<u8>, sibs: Seq<Seq<u8>>)
    requires
        present.len() != 32,
    ensures
        spec_recompute(key, leaf, present, sibs) is None,
{
}

proof fn lemma_set_bit(x: u8, s: u8, s2: u8)
    requires
        s < 8,
        s2 < 8,
    ensures
        ((x | (1u8 << s)) >> s2) & 1u8 == (if s2 == s { 1u8 } else { (x >> s2) & 1u8 }),
{
    assert(((x | (1u8 << s)) >> s2) & 1u8 == (if s2 == s { 1u8 } else { (x >> s2) & 1u8 })) by (bit_vector)
        requires
            s < 8,
            s2 < 8,
    ;
}

proof fn lemma_zero_bits(s: u8)
    ensures
        (0u8 >> s) & 1u8 == 0u8,
{
    assert((0u8 >> s) & 1u8 == 0u8) by (bit_vector);
}

/// A compact (non-)inclusion proof: the siblings along a key's root-to-leaf
/// path, with all-default siblings elided. `present` is a 256-bit bitmap
/// (32 bytes, MSB-first): bit `d` set means `siblings` carries a real hash for
/// depth `d`; unset means the sibling is the default for that depth,
/// reconstructed locally by the verifier. `siblings` lists the non-default
/// hashes in ascending depth order.
#[derive(Debug, Clone, PartialEq, Eq)]
pub struct MapProof {
    pub present: Vec<u8>,
    pub siblings: Vec<Hash>,
}

impl MapProof {
    /// Expand back to the full 256-sibling path, filling elided levels with
    /// the locally recomputed defaults. `None` if the bitmap and the sibling
    /// count disagree (a malformed proof — fail closed).
    fn expand(&self, defaults: &Defaults) -> (r: Option<Vec<Hash>>)
        requires
            defaults.wf(),
        ensures
            match r {
                Some(full) => spec_expand(self.present@, hv(self.siblings@)) == Some(hv(full@)),
                None => spec_expand(self.present@, hv(self.siblings@)) is None,
            },
    {
        if self.present.len() != DEPTH / 8 {
            return None;
        }
        let ghost sibs = hv(self.siblings@);
        let mut full: Vec<Hash> = Vec::with_capacity(DEPTH);
        let mut next: usize = 0;
        let mut d: usize = 0;
        assert(sibs.skip(0) =~= sibs);
        while d < DEPTH
            invariant
                defaults.wf(),
                self.present@.len() == 32,
                sibs == hv(self.siblings@),
                d <= DEPTH,
                next <= self.siblings@.len(),
                full@.len() == d,
                expand_from(self.present@, sibs, 0) == match expand_from(self.present@, sibs.skip(next as int), d as nat) {
                    Some(rest) => Some(hv(full@) + rest),
                    None => None::<Seq<Seq<u8>>>,
                },
            decreases DEPTH - d,
        {
            let ghost old_full = full@;
            let is_present = (self.present[d / 8] >> ((7 - (d % 8)) as u8)) & 1 == 1;
            if is_present {
                if next >= self.siblings.len() {
                    return None;
                }
                full.push(self.siblings[next]);
                assert(sibs.skip(next as int).drop_first() =~= sibs.skip(next + 1));
                next = next + 1;
            } else {
                full.push(defaults.at_height(DEPTH - d - 1));
            }
            d = d + 1;
            proof {
                let o = expand_from(self.present@, sibs.skip(next as int), d as nat);
            }
        }
        if next < self.siblings.len() {
            return None;
        }
        Some(full)
    }
}

impl RevocationMap {
    /// A (non-)inclusion proof for `key`: the siblings along its path,
    /// compacted. The same proof shape serves both directions; the claimed
    /// leaf given to [`verify_inclusion`] / [`verify_non_inclusion`] decides
    /// which is asserted.
    pub fn prove(&self, key: &Hash) -> (p: MapProof)
        ensures
            proof_for(self@, *key, p.present@, hv(p.siblings@)),
    {
        proof { use_type_invariant(self); }
        let mut siblings: Vec<Hash> = Vec::new();
        let mut present: Vec<u8> = vec![0u8; DEPTH / 8];
        proof {
            assert forall|d: int| 0 <= d < 256 implies #[trigger] spec_bit(present@, d) == 0u8 by {
                lemma_zero_bits((7 - d % 8) as u8);
            }
        }
        self.collect_siblings(self.keys.as_slice(), 0, key, &mut siblings, &mut present);
        MapProof { present, siblings }
    }

    fn collect_siblings(
        &self,
        keys: &[Hash],
        depth: usize,
        key: &Hash,
        siblings: &mut Vec<Hash>,
        present: &mut Vec<u8>,
    )
        requires
            self.defaults.wf(),
            depth <= DEPTH,
            keys@.to_set() == path_set(self@, *key, depth as nat),
            old(present)@.len() == 32,
            forall|d: int| depth <= d < 256 ==> #[trigger] spec_bit(old(present)@, d) == 0u8,
        ensures
            final(present)@.len() == 32,
            forall|d: int| 0 <= d < depth ==> #[trigger] spec_bit(final(present)@, d) == spec_bit(old(present)@, d),
            forall|d: int| depth <= d < 256 ==> (#[trigger] spec_bit(final(present)@, d) == 1u8)
                == (spec_full_path(self@, *key)[d] != spec_default((255 - d) as nat)),
            hv(final(siblings)@) == hv(old(siblings)@) + compact_from(spec_full_path(self@, *key), depth as nat),
        decreases DEPTH - depth,
    {
        let ghost full = spec_full_path(self@, *key);
        if depth == DEPTH {
            return;
        }
        let (left, right) = split_by_bit(keys, depth);
        proof {
            lemma_filter_to_set(keys@, bit_is(depth as int, 0u8));
            lemma_filter_to_set(keys@, bit_is(depth as int, 1u8));
            lemma_spec_bit_binary(key@, depth as int);
            lemma_path_set_agrees(self@, *key, depth as nat);
        }
        let key_bit = bit(key, depth);
        let (same, other) = if key_bit == 0 {
            (left, right)
        } else {
            (right, left)
        };
        proof {
            let p = path_set(self@, *key, depth as nat);
            let o = other@.to_set();
            assert forall|x: Hash, y: Hash, i: int|
                #![trigger o.contains(x), o.contains(y), spec_bit(x@, i)]
                o.contains(x) && o.contains(y) && 0 <= i < depth + 1 implies spec_bit(x@, i) == spec_bit(y@, i) by {}
        }
        let sibling = self.subtree_root(other.as_slice(), depth + 1);
        let ghost mid_present = present@;
        let dflt = self.defaults.at_depth(depth + 1);
        let is_default = hash_eq(&sibling, &dflt);
        proof {
            if !is_default && sibling@ == dflt@ {
                lemma_hash_view_eq(sibling, dflt);
            }
        }
        if !is_default {
            let byte = present[depth / 8];
            let shift: u8 = (7 - (depth % 8)) as u8;
            present.set(depth / 8, byte | (1u8 << shift));
            proof {
                assert forall|d: int| 0 <= d < 256 && d != depth implies #[trigger] spec_bit(present@, d) == spec_bit(mid_present, d) by {
                    if d / 8 == depth / 8 {
                        lemma_set_bit(byte, shift, (7 - d % 8) as u8);
                    }
                }
                lemma_set_bit(byte, shift, shift);
            }
            siblings.push(sibling);
        } else {
            proof {
                lemma_hash_order(sibling, sibling, sibling);
            }
        }
        let ghost mid_sibs = siblings@;
        self.collect_siblings(same.as_slice(), depth + 1, key, siblings, present);
        proof {
            let c = compact_from(full, (depth + 1) as nat);
        }
    }
}

/// Fold `claimed_leaf` at `key` bottom-up through the proof's sibling path;
/// `None` if the proof is malformed.
fn recompute_root(key: &Hash, claimed_leaf: Hash, proof: &MapProof) -> (r: Option<Hash>)
    ensures
        match r {
            Some(h) => spec_recompute(key@, claimed_leaf@, proof.present@, hv(proof.siblings@)) == Some(h@),
            None => spec_recompute(key@, claimed_leaf@, proof.present@, hv(proof.siblings@)) is None,
        },
{
    let defaults = Defaults::new();
    let full = match proof.expand(&defaults) {
        Some(f) => f,
        None => return None,
    };
    let ghost fv = hv(full@);
    assert(fv.len() == 256) by {
        lemma_expand_len(proof.present@, hv(proof.siblings@), 0);
    }
    let mut cur = claimed_leaf;
    let mut depth: usize = DEPTH;
    while depth > 0
        invariant
            depth <= DEPTH,
            full@.len() == 256,
            fv == hv(full@),
            cur@ == spec_up(key@, claimed_leaf@, fv, depth as nat),
        decreases depth,
    {
        depth = depth - 1;
        let sib = full[depth];
        cur = if bit(key, depth) == 0 {
            node_hash(&cur, &sib)
        } else {
            node_hash(&sib, &cur)
        };
    }
    Some(cur)
}

proof fn lemma_expand_len(present: Seq<u8>, sibs: Seq<Seq<u8>>, d: nat)
    requires
        d <= 256,
    ensures
        expand_from(present, sibs, d) matches Some(full) ==> full.len() == 256 - d,
    decreases 256 - d,
{
    if d < 256 {
        if sibs.len() > 0 {
            lemma_expand_len(present, sibs.drop_first(), d + 1);
        }
        lemma_expand_len(present, sibs, d + 1);
    }
}

/// Verify that `key` **is** revoked in the map with root `root`: its slot
/// holds the present leaf. Offline; needs only the root and the proof.
pub fn verify_inclusion(root: &Hash, key: &Hash, proof: &MapProof) -> (r: bool)
    ensures
        r == (spec_recompute(key@, spec_leaf_hash(key@), proof.present@, hv(proof.siblings@)) == Some(root@)),
{
    match recompute_root(key, leaf_hash(key), proof) {
        Some(h) => {
            proof {
                if h@ == root@ {
                    lemma_hash_view_eq(h, *root);
                }
            }
            hash_eq(&h, root)
        },
        None => false,
    }
}

/// Verify that `key` is **not** revoked in the map with root `root`: its slot
/// holds the empty leaf. Fails closed on a malformed proof.
pub fn verify_non_inclusion(root: &Hash, key: &Hash, proof: &MapProof) -> (r: bool)
    ensures
        r == (spec_recompute(key@, spec_empty_leaf(), proof.present@, hv(proof.siblings@)) == Some(root@)),
{
    match recompute_root(key, empty_leaf(), proof) {
        Some(h) => {
            proof {
                if h@ == root@ {
                    lemma_hash_view_eq(h, *root);
                }
            }
            hash_eq(&h, root)
        },
        None => false,
    }
}

} // verus!
