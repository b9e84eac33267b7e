//! Arbitrary-precision arithmetic of `num::BigUint`, reached through
//! little-endian byte strings. Every result comes back as
//! `BigUint::to_bytes_le` writes it.
use crate::encoding::{bytes_value, is_minimal_le};
use num::{BigUint, Integer, Zero};
use vstd::arithmetic::power2::pow2;
use vstd::prelude::*;

verus! {

/// `BigUint::from_bytes_le`, `*` and `to_bytes_le`: trusted to multiply the
/// numbers that the two strings denote.
#[verifier::external_body]
pub(crate) fn biguint_mul(a: &[u8], b: &[u8]) -> (r: Vec<u8>)
    ensures
        bytes_value(r@) == bytes_value(a@) * bytes_value(b@),
        is_minimal_le(r@),
{
    (BigUint::from_bytes_le(a) * BigUint::from_bytes_le(b)).to_bytes_le()
}

/// `BigUint::from_bytes_le`, `<<` and `to_bytes_le`: trusted to multiply the
/// number that `a` denotes by `2^shift`.
#[verifier::external_body]
pub(crate) fn biguint_shl(a: &[u8], shift: u16) -> (r: Vec<u8>)
    ensures
        bytes_value(r@) == bytes_value(a@) * pow2(shift as nat),
        is_minimal_le(r@),
{
    (BigUint::from_bytes_le(a) << shift).to_bytes_le()
}

/// `BigUint::from_bytes_le` and `is_zero`: trusted to tell whether the string
/// denotes zero.
#[verifier::external_body]
pub(crate) fn biguint_is_zero(a: &[u8]) -> (z: bool)
    ensures
        z == (bytes_value(a@) == 0),
{
    BigUint::from_bytes_le(a).is_zero()
}

/// `BigUint::from_bytes_le`, `%` and `to_bytes_le`: trusted to give the
/// remainder of `a` divided by `m`. A zero divisor makes `%` panic.
#[verifier::external_body]
pub(crate) fn biguint_rem(a: &[u8], m: &[u8]) -> (r: Vec<u8>)
    requires
        bytes_value(m@) != 0,
    ensures
        bytes_value(r@) == bytes_value(a@) % bytes_value(m@),
        is_minimal_le(r@),
{
    (BigUint::from_bytes_le(a) % BigUint::from_bytes_le(m)).to_bytes_le()
}

/// `BigUint::from_bytes_le`, `Integer::div_rem` and `to_bytes_le`: trusted
/// to give the quotient and the remainder of `a` divided by `d`. A zero
/// divisor makes `div_rem` panic.
#[verifier::external_body]
pub(crate) fn biguint_div_rem(a: &[u8], d: &[u8]) -> (qr: (Vec<u8>, Vec<u8>))
    requires
        bytes_value(d@) != 0,
    ensures
        bytes_value(qr.0@) == bytes_value(a@) / bytes_value(d@),
        bytes_value(qr.1@) == bytes_value(a@) % bytes_value(d@),
        is_minimal_le(qr.0@),
        is_minimal_le(qr.1@),
{
    let (q, r) = BigUint::from_bytes_le(a).div_rem(&BigUint::from_bytes_le(d));
    (q.to_bytes_le(), r.to_bytes_le())
}

} // verus!
