//! The closed set of errors reported by the builder and the token store.
//!
//! All validation is eager: the first invalid input aborts the corresponding
//! call with one of these variants and leaves the callee's state unchanged.
//! A constructed engine never produces any of them.

use vstd::prelude::*;

use crate::token::TokenId;

verus! {

/// Everything that can go wrong while assembling an L-system.
#[derive(Debug, Clone, PartialEq, Eq)]
#[non_exhaustive]
pub enum LSystemError {
    /// A token name was referenced that is not present.
    UnknownToken(String),
    /// A token name failed validation (it contains a space).
    InvalidToken(String),
    /// An identifier is not valid for the arena it was checked against.
    InvalidTokenId(TokenId),
    /// A malformed rule definition.
    InvalidRule(String),
    /// `finish` was called although no axiom was ever set.
    MissingAxiom,
    /// The arena already holds its maximum of 128 tokens.
    ArenaFull,
    /// An opaque underlying cause reported by a caller's environment,
    /// never produced by the engine itself.
    Other(String),
}

} // verus!
