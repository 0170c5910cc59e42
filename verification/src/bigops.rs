//! Arbitrary-precision arithmetic on big-endian byte vectors.
//!
//! Each operation converts its operands to `num_bigint_dig::BigUint`,
//! applies exactly one arithmetic or bitwise operation of that crate, and
//! converts the result back to big-endian bytes. The contracts state the
//! mathematical meaning of each operation over `be_val`.

use vstd::prelude::*;
use num_bigint_dig::BigUint;
use crate::bytes::{be_val, nat_xor, nat_and, nat_or};
use vstd::arithmetic::power2::pow2;

verus! {

/// Relies on `BigUint::add`: exact addition of unbounded naturals.
#[verifier::external_body]
pub(crate) fn big_add(a: &Vec<u8>, b: &Vec<u8>) -> (r: Vec<u8>)
    ensures
        be_val(r@) == be_val(a@) + be_val(b@),
{
    let x = BigUint::from_bytes_be(a);
    let y = BigUint::from_bytes_be(b);
    (x + y).to_bytes_be()
}

/// Relies on `BigUint::rem`: the remainder of Euclidean division.
#[verifier::external_body]
pub(crate) fn big_mod(a: &Vec<u8>, m: &Vec<u8>) -> (r: Vec<u8>)
    requires
        be_val(m@) > 0,
    ensures
        be_val(r@) == be_val(a@) % be_val(m@),
{
    let x = BigUint::from_bytes_be(a);
    let y = BigUint::from_bytes_be(m);
    (x % y).to_bytes_be()
}

/// Relies on `BigUint::bitxor`: bitwise exclusive or of the binary
/// representations.
#[verifier::external_body]
pub(crate) fn big_xor(a: &Vec<u8>, b: &Vec<u8>) -> (r: Vec<u8>)
    ensures
        be_val(r@) == nat_xor(be_val(a@), be_val(b@)),
{
    let x = BigUint::from_bytes_be(a);
    let y = BigUint::from_bytes_be(b);
    (x ^ y).to_bytes_be()
}

/// Relies on `BigUint::bitand`: bitwise and of the binary representations.
#[verifier::external_body]
pub(crate) fn big_and(a: &Vec<u8>, b: &Vec<u8>) -> (r: Vec<u8>)
    ensures
        be_val(r@) == nat_and(be_val(a@), be_val(b@)),
{
    let x = BigUint::from_bytes_be(a);
    let y = BigUint::from_bytes_be(b);
    (x & y).to_bytes_be()
}

/// Relies on `BigUint::bitor`: bitwise or of the binary representations.
#[verifier::external_body]
pub(crate) fn big_or(a: &Vec<u8>, b: &Vec<u8>) -> (r: Vec<u8>)
    ensures
        be_val(r@) == nat_or(be_val(a@), be_val(b@)),
{
    let x = BigUint::from_bytes_be(a);
    let y = BigUint::from_bytes_be(b);
    (x | y).to_bytes_be()
}

/// Relies on `BigUint::shr`: a right shift discards the `k` lowest bits,
/// that is, divides by two to the `k` rounding down.
#[verifier::external_body]
pub(crate) fn big_shr(a: &Vec<u8>, k: usize) -> (r: Vec<u8>)
    ensures
        be_val(r@) == be_val(a@) / pow2(k as nat),
{
    let x = BigUint::from_bytes_be(a);
    (x >> k).to_bytes_be()
}

/// Relies on `BigUint::shl`: a left shift multiplies by two to the `k`.
#[verifier::external_body]
pub(crate) fn big_shl(a: &Vec<u8>, k: usize) -> (r: Vec<u8>)
    ensures
        be_val(r@) == be_val(a@) * pow2(k as nat),
{
    let x = BigUint::from_bytes_be(a);
    (x << k).to_bytes_be()
}

/// Relies on `BigUint::mul`: exact multiplication of unbounded naturals.
#[verifier::external_body]
pub(crate) fn big_mul(a: &Vec<u8>, b: &Vec<u8>) -> (r: Vec<u8>)
    ensures
        be_val(r@) == be_val(a@) * be_val(b@),
{
    let x = BigUint::from_bytes_be(a);
    let y = BigUint::from_bytes_be(b);
    (x * y).to_bytes_be()
}

} // verus!
