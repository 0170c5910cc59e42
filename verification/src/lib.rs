//! HLS-1024: a sponge-style hash over arbitrary-precision modular
//! arithmetic. A message is padded, split into rate-sized blocks, and
//! folded into a 512-element state of integers below a fixed prime;
//! each block is followed by sixteen diffusion-and-confusion rounds,
//! four more rounds finalize the state, and a domain-separated
//! extendable-output function squeezes the 1024-bit digest.

#![allow(non_snake_case)]

pub mod bytes;
mod bigops;
pub mod xof;
pub mod params;
pub mod state;
pub mod rounds;
pub mod derivation;
pub mod extract;
pub mod hash;

use vstd::prelude::*;

verus! {

/// Number of elements in the internal state vector.
pub const StateSize: usize = 512;

/// Rounds applied after each absorbed block.
pub const RoundCount: usize = 16;

/// Length of the digest in bits.
pub const OutputBitLength: usize = 1024;

/// Byte length of one message block (the rate).
pub const BlockBytes: usize = 64;

} // verus!
