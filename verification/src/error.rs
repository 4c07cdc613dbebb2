//! The error taxonomy of the library.

use vstd::prelude::*;

verus! {

/// Why a signature link of the chain was rejected.
#[derive(Clone, Copy, Debug, PartialEq, Eq, Structural)]
pub enum ChainFault {
    /// The signature did not check out against the expected public key.
    BadSignature,
    /// The attested public key recorded for the block is malformed
    /// (it does not have the length of an encoded public key).
    MalformedAttestation,
}

/// Every error the library returns.
///
/// `CaveatFailed` is the one expected outcome a caller branches on
/// (access denied); all the others indicate malformed input, a broken
/// signature chain, or an exhausted evaluation budget.
#[derive(Clone, Copy, Debug, PartialEq, Eq, Structural)]
pub enum Error {
    /// A signing or verification primitive failed.
    Crypto,
    /// The signature link at `block_index` is broken.
    Chain { block_index: u64, fault: ChainFault },
    /// An appended block's symbol table offset does not equal the token's
    /// cumulative symbol count, or its index does not equal the chain length.
    BlockOffsetMismatch,
    /// A symbol code lies outside the cumulative symbol table.
    UnknownSymbol,
    /// The caveat at `caveat_index` of block `block_index` has no
    /// satisfying binding: access is denied.
    CaveatFailed { block_index: u64, caveat_index: u64 },
    /// Fact derivation did not reach a fixed point within its budget.
    ResourceExhausted,
}

} // verus!
