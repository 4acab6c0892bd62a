//! Revocation for capability-token chains. Chain verification is local and
//! stateless; revocation is the one freshness question that needs an
//! out-of-band check, isolated here. The checks are not implemented yet: they
//! report `NotImplemented`.
use vstd::prelude::*;

use crate::chain::Chain;

verus! {

/// Identifies a single revocable block within a chain.
#[derive(Debug, Clone, PartialEq, Eq, Hash)]
pub struct RevocationId(pub Vec<u8>);

/// A single entry in the out-of-chain transparency log.
#[derive(Debug, Clone)]
pub struct TransparencyLogEntry {
    pub revoked: RevocationId,
    /// Unix timestamp (seconds) the revocation was published.
    pub revoked_at: u64,
    /// Why it was revoked, for audit purposes.
    pub reason: String,
}

/// Errors from revocation checks.
#[derive(Debug, Clone, Copy, PartialEq, Eq)]
pub enum RevocationError {
    NotImplemented(&'static str),
}

/// Anything that can answer "has this block been revoked": `Ok(true)` if
/// confirmed revoked, `Ok(false)` if confirmed live, `Err` if the check itself
/// could not be completed.
pub trait RevocationChecker {
    fn is_revoked(&self, id: &RevocationId) -> Result<bool, RevocationError>;
}

/// Checks every block in a chain for revocation via `checker`. Not
/// implemented: always refuses.
pub fn check_chain_revocation(_chain: &Chain, _checker: &dyn RevocationChecker) -> (r: Result<(), RevocationError>)
    ensures
        r matches Err(e) && e == RevocationError::NotImplemented("check_chain_revocation"),
{
    Err(RevocationError::NotImplemented("check_chain_revocation"))
}

/// Short-TTL revocation: a block counts as revoked once it is older than its
/// declared TTL.
pub struct ShortTtlChecker {
    pub ttl_seconds: u64,
}

impl RevocationChecker for ShortTtlChecker {
    /// Not implemented: always refuses.
    fn is_revoked(&self, _id: &RevocationId) -> (r: Result<bool, RevocationError>)
        ensures
            r matches Err(e) && e == RevocationError::NotImplemented("ShortTtlChecker::is_revoked"),
    {
        Err(RevocationError::NotImplemented("ShortTtlChecker::is_revoked"))
    }
}

/// Transparency-log-backed revocation: consults an append-only log that is
/// independent of any single hop's key material.
pub struct TransparencyLogChecker {
    pub log_url: String,
}

impl RevocationChecker for TransparencyLogChecker {
    /// Not implemented: always refuses.
    fn is_revoked(&self, _id: &RevocationId) -> (r: Result<bool, RevocationError>)
        ensures
            r matches Err(e) && e == RevocationError::NotImplemented("TransparencyLogChecker::is_revoked"),
    {
        Err(RevocationError::NotImplemented("TransparencyLogChecker::is_revoked"))
    }
}

} // verus!
