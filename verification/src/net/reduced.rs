//! Division by a divisor that is fixed once and used many times, through
//! multipliers worked out in advance.

use strength_reduce::{StrengthReducedU32, StrengthReducedUsize};
use vstd::prelude::*;

verus! {

/// `strength_reduce::StrengthReducedUsize`: a divisor with its multiplier
/// worked out. Nothing of its inside is known here.
#[verifier::external_type_specification]
#[verifier::external_body]
pub struct ExStrengthReducedUsize(StrengthReducedUsize);

/// `strength_reduce::StrengthReducedU32`: a 32-bit divisor with its
/// multiplier worked out. Nothing of its inside is known here.
#[verifier::external_type_specification]
#[verifier::external_body]
pub struct ExStrengthReducedU32(StrengthReducedU32);

/// The divisor that a reduced divisor was made from: what
/// `StrengthReducedUsize::get` hands back.
pub uninterp spec fn divisor_of(reduced: StrengthReducedUsize) -> usize;

/// The divisor that a reduced 32-bit divisor was made from: what
/// `StrengthReducedU32::get` hands back.
pub uninterp spec fn divisor_of_u32(reduced: StrengthReducedU32) -> u32;

/// `StrengthReducedUsize::new`: the reduced form of `divisor`, which is not
/// zero.
#[verifier::external_body]
pub(crate) fn reduce(divisor: usize) -> (reduced: StrengthReducedUsize)
    requires
        divisor > 0,
    ensures
        divisor_of(reduced) == divisor,
{
    StrengthReducedUsize::new(divisor)
}

/// `StrengthReducedUsize::div_rem`: quotient and remainder of the truncated
/// division by the divisor that `reduced` was made from.
#[verifier::external_body]
pub(crate) fn div_rem(numerator: usize, reduced: StrengthReducedUsize) -> (qr: (usize, usize))
    requires
        divisor_of(reduced) > 0,
    ensures
        qr.0 == numerator / divisor_of(reduced),
        qr.1 == numerator % divisor_of(reduced),
{
    StrengthReducedUsize::div_rem(numerator, reduced)
}

/// `StrengthReducedU32::new`: the reduced form of `divisor`, which is not
/// zero.
#[verifier::external_body]
pub(crate) fn reduce_u32(divisor: u32) -> (reduced: StrengthReducedU32)
    requires
        divisor > 0,
    ensures
        divisor_of_u32(reduced) == divisor,
{
    StrengthReducedU32::new(divisor)
}

/// The `%` of a `u32` by a `StrengthReducedU32`: the remainder of the
/// division by the divisor that `reduced` was made from.
#[verifier::external_body]
pub(crate) fn rem_u32(numerator: u32, reduced: StrengthReducedU32) -> (r: u32)
    requires
        divisor_of_u32(reduced) > 0,
    ensures
        r == numerator % divisor_of_u32(reduced),
{
    numerator % reduced
}

} // verus!
