//! Uniform dice rolls for combat resolution.

use vstd::prelude::*;

verus! {

/// Relies on `rand::random_range` over `lo..=hi`: it samples the
/// thread-local generator uniformly over the inclusive range, and panics
/// only on an empty range, which the precondition rules out. Nothing can be
/// promised about which value comes back beyond its bounds.
#[verifier::external_body]
fn random_in_range(lo: u8, hi: u8) -> (res: u8)
    requires
        lo <= hi,
    ensures
        lo <= res <= hi,
{
    rand::random_range(lo..=hi)
}

/// An `N`-sided die.
pub struct Dice<const N: u8>;

impl<const N: u8> Dice<N> {
    /// One roll: a uniformly drawn value between 1 and `N` inclusive.
    pub fn roll() -> (res: u8)
        requires
            N >= 1,
        ensures
            1 <= res <= N,
    {
        random_in_range(1, N)
    }
}

} // verus!
