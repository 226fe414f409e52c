//! The component conversions that thumbnail averaging takes from `pixeli` and
//! `num_traits`, for `u16` components summed in their `Enlargeable::Larger`
//! type `u32`.
use vstd::prelude::*;
use pixeli::Enlargeable;

verus! {

/// The zero of the sum type: `num_traits::Zero::zero` for `u32`, which is `0`.
#[verifier::external_body]
pub(crate) fn larger_zero() -> (r: u32)
    ensures
        r == 0,
{
    <u32 as num_traits::Zero>::zero()
}

/// `pixeli::Enlargeable::to_larger` for `u16`: the same number as a `u32`
/// (`NumCast::from` of a `u16` into `u32` always succeeds and keeps the value).
#[verifier::external_body]
pub(crate) fn to_larger(c: u16) -> (r: u32)
    ensures
        r == c,
{
    <u16 as Enlargeable>::to_larger(c)
}

/// `pixeli::Enlargeable::clamp_from` for `u16`: values above `u16::MAX` give
/// `u16::MAX`, the others are kept (a `u32` is never below `u16::MIN`).
#[verifier::external_body]
pub(crate) fn clamp_from(n: u32) -> (r: u16)
    ensures
        r == if n > 0xffff { 0xffff } else { n },
{
    <u16 as Enlargeable>::clamp_from(n)
}

} // verus!
