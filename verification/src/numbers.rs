//! Arithmetic on header numbers.

use vstd::prelude::*;

verus! {

/// The difference `a - b`, or zero where `b` exceeds `a`.
pub open spec fn saturating_sub_spec(a: u64, b: u64) -> u64 {
    if a >= b {
        (a - b) as u64
    } else {
        0
    }
}

/// The number one, as `num_traits::One::one` gives it for `u64`.
///
/// Trusted: `num_traits` implements `One` for `u64` by the literal `1`.
#[verifier::external_body]
pub(crate) fn one() -> (r: u64)
    ensures
        r == 1,
{
    num_traits::One::one()
}

/// `a - b` stopping at zero, as `num_traits::Saturating::saturating_sub` gives it for `u64`.
///
/// Trusted: `num_traits` forwards to `u64::saturating_sub`, which returns the
/// difference where it is not negative and zero otherwise.
#[verifier::external_body]
pub(crate) fn saturating_sub(a: u64, b: u64) -> (r: u64)
    ensures
        r == saturating_sub_spec(a, b),
{
    num_traits::Saturating::saturating_sub(a, b)
}

} // verus!
