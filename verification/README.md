# indexone

The verified core of a capability-token delegation system, written in Verus.

- `src/crypto.rs`, `src/ed25519.rs`, `src/mldsa.rs`, `src/hybrid.rs` — signature
  agility: algorithm-tagged keys and signatures, a fail-closed dispatching
  verifier, Ed25519 and ML-DSA-87 signers, and the hybrid framing (exactly two
  length-prefixed components, no nesting).
- `src/witness.rs` — an append-only RFC 6962 Merkle log of action receipts with
  inclusion and consistency proofs.
- `src/revmap.rs` — a sparse Merkle revocation map keyed by 256-bit ids, with
  compact inclusion and non-inclusion proofs.
- `src/revlog.rs` — revocation-map checkpoints and the witness leaf that
  commits each one.
- `src/attestation.rs` — independent completion attestations and the k-of-n
  threshold rule.
- `src/checkpoint.rs` — signed checkpoint notes, witness cosigning with
  append-only enforcement, and the N-of-M quorum check.
- `src/policy.rs` — the composed, fail-closed verification of an action: the
  verifier-set policy and the gates (chain binding, non-equivocation,
  inclusion, independent and anchored attestation, digest agreement), single
  and k-of-n.
- `src/chain.rs`, `src/revocation.rs`, `src/revocation_http.rs` — the
  delegation-chain data model, revocation interfaces, and the
  remote-revocation transport settings and status handling.
- `src/hashing.rs`, `src/json.rs`, `src/text.rs` — digests, the canonical JSON
  encodings that get signed or hashed, and line/number parsing on bytes.

Every public function carries a `requires`/`ensures` contract; the laws the
library promises across calls are public proof functions (`lemma_*`). Calls into
`blake3`, `sha2`, `ed25519-dalek`, `fips204`, `getrandom`, `base64` and `hex` sit behind
small trusted wrappers whose doc comments say what is assumed of them.

`tests/` runs the library against the real outside crates. `app/` holds the
serde copies of the wire types, with conversions both ways, and the services'
request and response bodies.
