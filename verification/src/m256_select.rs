//! Comparison and selection of 256-bit words in constant time.

use subtle::{Choice, ConditionallySelectable, ConstantTimeEq};
use vstd::prelude::*;

use crate::m256::M256;

verus! {

/// `ConstantTimeEq::ct_eq` of `subtle` on two `u128`, read as a `bool`.
///
/// The source computes `x = a ^ b`, takes the high bit of `x | -x`, which is clear exactly
/// when `x` is zero, and returns its opposite: the result is whether `a` equals `b`.
#[verifier::external_body]
fn ct_eq_u128(a: u128, b: u128) -> (r: bool)
    ensures
        r == (a == b),
{
    bool::from(a.ct_eq(&b))
}

/// `ConditionallySelectable::conditional_select` of `subtle` on two `u128`, with the choice
/// given as a `bool`.
///
/// The source builds a mask of all zeros for a choice of 0 and of all ones for a choice of
/// 1, and returns `a ^ (mask & (a ^ b))`: `a` for 0 and `b` for 1.
#[verifier::external_body]
fn conditional_select_u128(a: u128, b: u128, choice: bool) -> (r: u128)
    ensures
        r == (if choice {
            b
        } else {
            a
        }),
{
    u128::conditional_select(&a, &b, Choice::from(choice as u8))
}

impl M256 {
    /// Whether the two values are equal, decided without a branch on their bits.
    pub fn ct_eq(&self, other: &M256) -> (r: bool)
        ensures
            r == (*self == *other),
    {
        let lo = ct_eq_u128(self.lo, other.lo);
        let hi = ct_eq_u128(self.hi, other.hi);
        lo && hi
    }

    /// `b` where `choice` holds and `a` where it does not, picked without a branch.
    pub fn conditional_select(a: &M256, b: &M256, choice: bool) -> (r: M256)
        ensures
            r == (if choice {
                *b
            } else {
                *a
            }),
    {
        M256 {
            lo: conditional_select_u128(a.lo, b.lo, choice),
            hi: conditional_select_u128(a.hi, b.hi, choice),
        }
    }
}

} // verus!
