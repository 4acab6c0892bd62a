//! Revocation-map checkpoints: the commitment to the revocation map's root at
//! one epoch that is appended as a leaf to the witness log, so the map root a
//! client checks against is pinned in an append-only log.
use vstd::prelude::*;
use vstd::string::StringSliceAdditionalSpecFns;

use crate::hashing::{append_bytes, blake3_hash, spec_blake3};
use crate::witness::{ActionReceipt, Digest};

verus! {

/// Domain tag of a checkpoint digest, also hashed into a checkpoint leaf's
/// `chain_digest` so such leaves are recognisable.
pub const CHECKPOINT_DOMAIN: &'static str = "indexone-revlog/MapCheckpoint/v1";
/// Domain tag of a checkpoint leaf's nonce.
pub const NONCE_DOMAIN: &'static str = "indexone-revlog/checkpoint-nonce/v1";

/// The 8 big-endian bytes of `n`.
pub open spec fn spec_be64(n: u64) -> Seq<u8> {
    seq![
        (n >> 56u64) as u8,
        (n >> 48u64) as u8,
        (n >> 40u64) as u8,
        (n >> 32u64) as u8,
        (n >> 24u64) as u8,
        (n >> 16u64) as u8,
        (n >> 8u64) as u8,
        n as u8,
    ]
}

fn push_be64(out: &mut Vec<u8>, n: u64)
    ensures
        final(out)@ == old(out)@ + spec_be64(n),
{
    out.push((n >> 56u64) as u8);
    out.push((n >> 48u64) as u8);
    out.push((n >> 40u64) as u8);
    out.push((n >> 32u64) as u8);
    out.push((n >> 24u64) as u8);
    out.push((n >> 16u64) as u8);
    out.push((n >> 8u64) as u8);
    out.push(n as u8);
    assert(out@ =~= old(out)@ + spec_be64(n));
}

/// A commitment to the revocation map's state at one epoch.
#[derive(Debug, Clone, PartialEq, Eq)]
pub struct MapCheckpoint {
    /// Monotonic epoch (one per published checkpoint).
    pub epoch: u64,
    /// The sparse-Merkle map root this checkpoint freezes.
    pub map_root: crate::revmap::Hash,
    /// The witness root this checkpoint was appended on top of.
    pub prev_log_root: Digest,
}

/// What a checkpoint's digest hashes: the domain tag, the big-endian epoch,
/// the map root and the previous log root.
pub open spec fn spec_digest_input(c: MapCheckpoint) -> Seq<u8> {
    CHECKPOINT_DOMAIN.spec_bytes() + spec_be64(c.epoch) + c.map_root@ + c.prev_log_root@
}

/// What a checkpoint leaf's nonce hashes: the nonce domain tag, the big-endian
/// epoch and the map root.
pub open spec fn spec_nonce_input(c: MapCheckpoint) -> Seq<u8> {
    NONCE_DOMAIN.spec_bytes() + spec_be64(c.epoch) + c.map_root@
}

/// The fixed digest stamped into a checkpoint leaf's `chain_digest`.
fn checkpoint_leaf_tag() -> (r: Digest)
    ensures
        r@ == spec_blake3(CHECKPOINT_DOMAIN.spec_bytes()),
{
    blake3_hash(CHECKPOINT_DOMAIN.as_bytes())
}

impl MapCheckpoint {
    /// Domain-separated blake3 digest binding every field; it is committed as
    /// the log leaf's `action_digest`.
    pub fn digest(&self) -> (r: Digest)
        ensures
            r@ == spec_blake3(spec_digest_input(*self)),
    {
        let mut buf: Vec<u8> = Vec::new();
        append_bytes(&mut buf, CHECKPOINT_DOMAIN.as_bytes());
        push_be64(&mut buf, self.epoch);
        append_bytes(&mut buf, self.map_root.as_slice());
        append_bytes(&mut buf, self.prev_log_root.as_slice());
        assert(buf@ =~= spec_digest_input(*self));
        blake3_hash(buf.as_slice())
    }

    /// The witness leaf that commits this checkpoint: the checkpoint tag as
    /// `chain_digest`, the checkpoint digest as `action_digest`, a nonce
    /// derived from epoch and map root (so distinct checkpoints never share a
    /// leaf), and the previous log root.
    pub fn receipt(&self) -> (r: ActionReceipt)
        ensures
            r.chain_digest@ == spec_blake3(CHECKPOINT_DOMAIN.spec_bytes()),
            r.action_digest@ == spec_blake3(spec_digest_input(*self)),
            r.nonce@ == spec_blake3(spec_nonce_input(*self)),
            r.prev_root == self.prev_log_root,
    {
        let mut nbuf: Vec<u8> = Vec::new();
        append_bytes(&mut nbuf, NONCE_DOMAIN.as_bytes());
        push_be64(&mut nbuf, self.epoch);
        append_bytes(&mut nbuf, self.map_root.as_slice());
        assert(nbuf@ =~= spec_nonce_input(*self));
        ActionReceipt {
            chain_digest: checkpoint_leaf_tag(),
            action_digest: self.digest(),
            nonce: blake3_hash(nbuf.as_slice()),
            prev_root: self.prev_log_root,
        }
    }
}

} // verus!
