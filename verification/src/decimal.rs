//! Fixed-point decimals with 18 fractional digits.
use vstd::prelude::*;

verus! {

/// A non-negative decimal number, held as its value times `10^18`.
#[derive(Clone, Copy, Debug, PartialEq, Eq, Structural)]
pub struct Decimal {
    pub atomics: u128,
}

/// `10^18`: the atomics of the decimal one.
pub const DECIMAL_FRACTIONAL: u128 = 1_000_000_000_000_000_000u128;

impl Decimal {
    /// The decimal whose atomics are `atomics`.
    pub fn from_atomics(atomics: u128) -> (d: Decimal)
        ensures
            d.atomics == atomics,
    {
        Decimal { atomics }
    }

    /// The decimal zero.
    pub fn zero() -> (d: Decimal)
        ensures
            d.atomics == 0,
    {
        Decimal { atomics: 0 }
    }

    /// The decimal equal to the integer `n`.
    pub fn from_integer(n: u64) -> (d: Decimal)
        ensures
            d.atomics == n * DECIMAL_FRACTIONAL,
    {
        Decimal { atomics: n as u128 * DECIMAL_FRACTIONAL }
    }

    /// The decimal `n / 100`.
    pub fn percent(n: u64) -> (d: Decimal)
        ensures
            d.atomics == n * (DECIMAL_FRACTIONAL / 100),
    {
        Decimal { atomics: n as u128 * (DECIMAL_FRACTIONAL / 100) }
    }

    pub fn is_zero(&self) -> (b: bool)
        ensures
            b == (self.atomics == 0),
    {
        self.atomics == 0
    }

    /// Whether `self` is smaller than `other`.
    pub fn lt(&self, other: &Decimal) -> (b: bool)
        ensures
            b == (self.atomics < other.atomics),
    {
        self.atomics < other.atomics
    }

    /// The sum, which must not overflow.
    pub fn add(&self, other: &Decimal) -> (d: Decimal)
        requires
            self.atomics + other.atomics <= u128::MAX,
        ensures
            d.atomics == self.atomics + other.atomics,
    {
        Decimal { atomics: self.atomics + other.atomics }
    }
}

} // verus!
