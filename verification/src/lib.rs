//! Verified core of a capability-token delegation system: signature agility
//! (Ed25519, ML-DSA-87, hybrid framing), the delegation-chain data model, an
//! append-only RFC 6962 Merkle witness, and a sparse Merkle revocation map with
//! compact (non-)inclusion proofs.
pub mod crypto;
pub mod hashing;
pub mod json;
pub mod text;
pub mod revmap;
pub mod witness;
pub mod attestation;
pub mod checkpoint;
pub mod ed25519;
pub mod hybrid;
pub mod mldsa;
pub mod chain;
pub mod revocation;
pub mod revocation_http;
pub mod policy;
pub mod revlog;
