//! 32.32 fixed-point phase and the 8.24 fixed-point bend factor.
//!
//! A phase is a whole sample index and a fraction, in one 64-bit word. Single
//! precision would lose fractional resolution on long samples, which is audible
//! as detuning.

use vstd::prelude::*;

verus! {

/// One whole sample.
pub const FIXED_ONE: u64 = 0x1_0000_0000;

/// A bend factor of one: 8.24 fixed point.
pub const BEND_ONE: u32 = 0x0100_0000;

/// A 32.32 fixed-point number.
#[derive(Debug, Clone, Copy, PartialEq, Eq, Structural)]
pub struct Fixed(pub u64);

impl Fixed {
    /// A whole number of samples.
    pub fn from_int(n: u32) -> (r: Fixed)
        ensures
            r.0 == n * FIXED_ONE,
            r.whole() == n,
            r.fraction() == 0,
    {
        Fixed(n as u64 * FIXED_ONE)
    }

    /// The whole part.
    pub open spec fn whole(self) -> int {
        self.0 as int / FIXED_ONE as int
    }

    /// The fraction, in units of 2^-32.
    pub open spec fn fraction(self) -> int {
        self.0 as int % FIXED_ONE as int
    }

    /// Whole part and fraction put together.
    pub fn from_parts(hi: u32, lo: u32) -> (r: Fixed)
        ensures
            r.0 == hi * FIXED_ONE + lo,
            r.whole() == hi,
            r.fraction() == lo,
    {
        Fixed(hi as u64 * FIXED_ONE + lo as u64)
    }

    /// The whole part.
    pub fn hi(self) -> (r: u32)
        ensures
            r == self.whole(),
    {
        (self.0 / FIXED_ONE) as u32
    }

    /// The fraction.
    pub fn lo(self) -> (r: u32)
        ensures
            r == self.fraction(),
    {
        (self.0 % FIXED_ONE) as u32
    }

    /// Addition modulo 2^64.
    pub fn wrapping_add(self, other: Fixed) -> (r: Fixed)
        ensures
            r.0 == (self.0 + other.0) % 0x1_0000_0000_0000_0000,
    {
        Fixed(self.0.wrapping_add(other.0))
    }

    /// The product with an 8.24 factor, rounded down, modulo 2^64.
    pub open spec fn scaled(self, factor: u32) -> u64 {
        ((self.0 * factor / BEND_ONE as int) % 0x1_0000_0000_0000_0000) as u64
    }

    /// Scale by an 8.24 factor, rounding down.
    pub fn scale(self, factor: u32) -> (r: Fixed)
        ensures
            r.0 == self.scaled(factor),
    {
        assert(0 <= self.0 * factor <= 0xffff_ffff_ffff_ffff * 0xffff_ffff) by (nonlinear_arith)
            requires
                0 <= self.0 <= 0xffff_ffff_ffff_ffff,
                0 <= factor <= 0xffff_ffff,
        ;
        let p: u128 = self.0 as u128 * factor as u128 / BEND_ONE as u128;
        Fixed((p % 0x1_0000_0000_0000_0000) as u64)
    }
}

/// Splitting a phase into its parts and putting them together gives it back.
pub proof fn law_parts_round_trip(x: Fixed)
    ensures
        x.whole() * FIXED_ONE + x.fraction() == x.0,
        0 <= x.whole() <= u32::MAX,
        0 <= x.fraction() <= u32::MAX,
{
}

/// A bend factor of one leaves a step as it is.
pub proof fn law_unity_bend_is_identity(x: Fixed)
    ensures
        x.scaled(BEND_ONE) == x.0,
{
}

} // verus!
