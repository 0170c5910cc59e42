//! The two domain-separated extendable-output functions of the
//! construction, SHAKE128 and SHAKE256.
//!
//! Their outputs are deterministic functions of the seed bytes and the
//! requested length alone; the names `shake128_of` and `shake256_of` stand
//! for those outputs, which no short formula can state.

use vstd::prelude::*;
use sha3::{Shake128, Shake256};
use sha3::digest::{Update, ExtendableOutput, XofReader};

verus! {

pub uninterp spec fn shake128_of(seed: Seq<u8>, n: nat) -> Seq<u8>;

pub uninterp spec fn shake256_of(seed: Seq<u8>, n: nat) -> Seq<u8>;

/// Relies on `sha3::Shake128`: the SHAKE128 extendable-output function,
/// squeezed to exactly `n` bytes; the output depends on the seed alone.
#[verifier::external_body]
pub(crate) fn shake128_bytes(seed: &Vec<u8>, n: usize) -> (r: Vec<u8>)
    ensures
        r@ == shake128_of(seed@, n as nat),
        r@.len() == n,
{
    let mut h = Shake128::default();
    h.update(seed);
    let mut reader = h.finalize_xof();
    let mut out = vec![0u8; n];
    XofReader::read(&mut reader, &mut out);
    out
}

/// Relies on `sha3::Shake256`: the SHAKE256 extendable-output function,
/// squeezed to exactly `n` bytes; the output depends on the seed alone.
#[verifier::external_body]
pub(crate) fn shake256_bytes(seed: &Vec<u8>, n: usize) -> (r: Vec<u8>)
    ensures
        r@ == shake256_of(seed@, n as nat),
        r@.len() == n,
{
    let mut h = Shake256::default();
    h.update(seed);
    let mut reader = h.finalize_xof();
    let mut out = vec![0u8; n];
    XofReader::read(&mut reader, &mut out);
    out
}

} // verus!
