//! A decentralized, attenuable authorization token.
//!
//! A token carries a chain of signed blocks; block 0 (the authority block) is
//! signed by the root key pair, every later block by an ephemeral key pair.
//! Each block holds facts, rules and caveats of a Datalog-style policy
//! language. Authorization verifies the signature chain, merges every block's
//! facts and rules with the caller's ambient facts, runs fact derivation to a
//! fixed point, and demands that every caveat of every block is satisfiable.

pub mod builder;
pub mod crypto;
pub mod datalog;
pub mod error;
pub mod laws;
pub mod token;
pub mod wire;

use vstd::prelude::*;

verus! {

/// The number of fixed-point passes fact derivation may take before it
/// gives up with `Error::ResourceExhausted`.
pub const MAX_ITERATIONS: u64 = 100;

} // verus!
