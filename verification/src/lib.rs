//! A symbolic string-rewriting engine for Lindenmayer systems (L-systems).
//!
//! An L-system is built from a finite alphabet of named tokens, an initial
//! sequence (the axiom), and per-token production rules.  Each generation is
//! produced by rewriting every token of the current sequence in parallel
//! through its production rule and concatenating the results in order.
//!
//! The crate is organised leaf-first: compact token identifiers and named
//! tokens ([`token`]), a bounded append-only token store ([`arena`]), a
//! validating builder ([`builder`]) that assembles a consistent rule set, and
//! the runtime rewriting engine ([`system`]).

pub mod arena;
pub mod builder;
pub mod errors;
pub mod system;
pub mod token;

pub use arena::Arena;
pub use builder::LSystemBuilder;
pub use errors::LSystemError;
pub use system::LSystem;
