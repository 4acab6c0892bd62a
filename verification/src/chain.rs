//! The append-only signed delegation-block chain: the capability token's data
//! model. Block 0 is the human root authority; each later block is one agent's
//! signed, scope-narrowing delegation with a mandatory purpose. Signing,
//! attenuation and verification are not implemented yet: those operations
//! report `NotImplemented`.
use vstd::prelude::*;

use crate::crypto::{Algorithm, Signature};

verus! {

/// Monotonically narrowing permission envelope carried by every block.
#[derive(Debug, Clone, PartialEq, Eq)]
pub struct Scope {
    /// Opaque permission strings (e.g. "payments.charge").
    pub permissions: Vec<String>,
    /// Maximum spend this scope authorizes, in minor units of `currency`.
    pub budget: Option<u64>,
    pub currency: Option<String>,
    /// Maximum remaining delegation depth (hops) this scope allows.
    pub max_depth: u32,
    /// Unix timestamp (seconds) after which this scope is no longer valid.
    pub expires_at: u64,
}

/// Identifies a principal: a human, or an agent acting for an organization.
#[derive(Debug, Clone, PartialEq, Eq)]
pub struct Principal {
    /// Stable identifier for the principal.
    pub id: String,
    /// Human-readable org/agent name, for audit trails.
    pub display_name: String,
}

/// Block 0: the human root of authority.
#[derive(Debug, Clone)]
pub struct RootBlock {
    pub principal: Principal,
    pub scope: Scope,
    pub signature: Signature,
}

/// Block N: one agent's signed, scope-narrowing delegation to the next agent.
#[derive(Debug, Clone)]
pub struct DelegationBlock {
    /// The principal delegating authority.
    pub from: Principal,
    /// The principal authority is delegated to.
    pub to: Principal,
    /// Narrowed scope for this hop.
    pub scope: Scope,
    /// Why this delegation happened. Mandatory.
    pub purpose: String,
    /// Hash of the previous block, binding this block into the chain.
    pub prev_block_hash: Vec<u8>,
    pub signature: Signature,
}

/// A complete capability-token chain: one root block plus zero or more
/// delegation blocks.
#[derive(Debug, Clone)]
pub struct Chain {
    pub root: RootBlock,
    pub delegations: Vec<DelegationBlock>,
}

/// Errors returned while building or verifying a chain.
#[derive(Debug, Clone, Copy, PartialEq, Eq)]
pub enum ChainError {
    NotImplemented(&'static str),
}

impl Chain {
    /// Start a new chain from a signed human root authority. Not implemented:
    /// always refuses.
    pub fn new(_root: RootBlock) -> (r: Result<Chain, ChainError>)
        ensures
            r matches Err(e) && e == ChainError::NotImplemented("Chain::new"),
    {
        Err(ChainError::NotImplemented("Chain::new"))
    }

    /// Append a new delegation hop. Not implemented: always refuses and leaves
    /// the chain unchanged.
    pub fn attenuate(&mut self, _to: Principal, _new_scope: Scope, _purpose: String, _algorithm: Algorithm) -> (r: Result<(), ChainError>)
        ensures
            r == Err::<(), ChainError>(ChainError::NotImplemented("Chain::attenuate")),
            *final(self) == *old(self),
    {
        Err(ChainError::NotImplemented("Chain::attenuate"))
    }

    /// Verify the entire chain. Not implemented: always refuses.
    pub fn verify(&self) -> (r: Result<Scope, ChainError>)
        ensures
            r matches Err(e) && e == ChainError::NotImplemented("Chain::verify"),
    {
        Err(ChainError::NotImplemented("Chain::verify"))
    }
}

} // verus!
