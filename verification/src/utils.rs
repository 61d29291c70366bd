//! Constants of the fee and slippage rules, and conversions of percents.
use vstd::prelude::*;
use crate::decimal::Decimal;
use crate::error::{ContractError, FractionError, OverflowOperation, StdError};
use crate::wide::{
    Wide, u512_checked_add, u512_checked_div, u512_checked_mul, u512_checked_rem, pow256,
    lemma_pow256_monotonic, lemma_pow256_16, two_pow_128
};

verus! {

/// The whole, in the units in which percents are computed: `10_000` stands for 100%.
pub const SCALE_FACTOR: u128 = 10_000u128;

/// `10^20`: dividing a percent's atomics times `SCALE_FACTOR` by this gives it in units
/// of `SCALE_FACTOR`.
pub const DECIMAL_PRECISION: u128 = 100_000_000_000_000_000_000u128;

/// The smallest non-zero fee percent: 0.01%, the smallest that `SCALE_FACTOR` can
/// express; below it every fee would round to nothing.
pub fn min_fee_percent() -> (d: Decimal)
    ensures
        d.atomics == 10_000_000_000_000_000u128,
{
    Decimal::from_atomics(10_000_000_000_000_000u128)
}

/// The largest total of the fee percents: 5%.
pub fn predefined_max_fees_percent() -> (d: Decimal)
    ensures
        d.atomics == 5_000_000_000_000_000_000u128,
{
    Decimal::from_atomics(5_000_000_000_000_000_000u128)
}

/// The largest slippage percent that can be configured: 10%.
pub fn predefined_max_slippage_percent() -> (d: Decimal)
    ensures
        d.atomics == 10_000_000_000_000_000_000u128,
{
    Decimal::from_atomics(10_000_000_000_000_000_000u128)
}

/// A percent expressed in units of `SCALE_FACTOR`, or the overflow of the scaling.
pub open spec fn spec_decimal_to_uint128(decimal: Decimal) -> Result<u128, StdError> {
    if decimal.atomics * SCALE_FACTOR > u128::MAX {
        Err(StdError::Overflow { operation: OverflowOperation::Mul, operand1: decimal.atomics, operand2: SCALE_FACTOR })
    } else {
        Ok(((decimal.atomics * SCALE_FACTOR) / (DECIMAL_PRECISION as int)) as u128)
    }
}

/// Converts a percent (such as 0.3 for 0.3%) into units of `SCALE_FACTOR` (30), rounding
/// down.
pub fn decimal_to_uint128(decimal: Decimal) -> (r: Result<u128, StdError>)
    ensures
        r == spec_decimal_to_uint128(decimal),
{
    match decimal.atomics.checked_mul(SCALE_FACTOR) {
        Some(result) => Ok(result / DECIMAL_PRECISION),
        None => Err(StdError::Overflow { operation: OverflowOperation::Mul, operand1: decimal.atomics, operand2: SCALE_FACTOR }),
    }
}

/// `amount * percent / SCALE_FACTOR`, rounded up.
pub open spec fn ceil_percent_of(amount: nat, percent: nat) -> nat {
    ((amount * percent + 9999) / 10000) as nat
}

/// The part of `amount` given by `percent` (in units of `SCALE_FACTOR`), rounded up, or
/// an error where it does not fit in 128 bits.
pub open spec fn spec_amount_with_percent(amount: u128, percent: u128) -> Result<u128, ContractError> {
    if ceil_percent_of(amount as nat, percent as nat) > u128::MAX {
        Err(ContractError::CheckedMultiplyFractionError(FractionError::ConversionOverflow))
    } else {
        Ok(ceil_percent_of(amount as nat, percent as nat) as u128)
    }
}

/// Computes `amount * percent / SCALE_FACTOR` rounded up, where `percent` is in units of
/// `SCALE_FACTOR`; the product is formed in 512 bits, so only a result beyond 128 bits
/// fails.
pub fn calculate_amount_with_percent(amount: u128, percent: u128) -> (r: Result<u128, ContractError>)
    ensures
        r == spec_amount_with_percent(amount, percent),
{
    let a = Wide::from_u128(amount);
    let p = Wide::from_u128(percent);
    let s = Wide::from_u128(SCALE_FACTOR);
    let one = Wide::from_u128(1);
    proof {
        lemma_pow256_16();
        lemma_pow256_monotonic(32, 64);
        lemma_two_128_product();
        assert(amount as nat * percent as nat <= u128::MAX as nat * u128::MAX as nat) by (nonlinear_arith);
    }
    let product = match u512_checked_mul(&a, &p) {
        Some(x) => x,
        None => {
            proof { assert(false); }
            return Err(ContractError::CheckedMultiplyFractionError(FractionError::Overflow));
        }
    };
    let quotient = match u512_checked_div(&product, &s) {
        Some(x) => x,
        None => {
            return Err(ContractError::CheckedMultiplyFractionError(FractionError::DivideByZero));
        }
    };
    let remainder = match u512_checked_rem(&product, &s) {
        Some(x) => x,
        None => {
            return Err(ContractError::CheckedMultiplyFractionError(FractionError::DivideByZero));
        }
    };
    let rounded = match remainder.to_u128() {
        Some(0) => quotient,
        _ => {
            proof {
                assert(quotient.value() <= product.value());
            }
            match u512_checked_add(&quotient, &one) {
                Some(x) => x,
                None => {
                    proof { assert(false); }
                    return Err(ContractError::CheckedMultiplyFractionError(FractionError::Overflow));
                }
            }
        }
    };
    proof {
        let n = amount as nat * percent as nat;
        assert(rounded.value() == ceil_percent_of(amount as nat, percent as nat)) by (nonlinear_arith)
            requires
                n == product.value(),
                quotient.value() == n / 10000,
                remainder.value() == n % 10000,
                remainder.value() == 0 ==> rounded.value() == quotient.value(),
                remainder.value() != 0 ==> rounded.value() == quotient.value() + 1,
                ceil_percent_of(amount as nat, percent as nat) == (n + 9999) / 10000,
        ;
    }
    match rounded.to_u128() {
        Some(x) => Ok(x),
        None => Err(ContractError::CheckedMultiplyFractionError(FractionError::ConversionOverflow)),
    }
}

/// `2^128 * 2^128` fits in 512 bits with room to spare.
proof fn lemma_two_128_product()
    ensures
        two_pow_128() * two_pow_128() < pow256(64),
{
    lemma_pow256_16();
    assert(pow256(64) == pow256(32) * pow256(32)) by {
        lemma_pow256_add(32, 32);
    }
    assert(pow256(32) == pow256(16) * pow256(16)) by {
        lemma_pow256_add(16, 16);
    }
    lemma_pow256_monotonic(0, 32);
    assert(pow256(0) == 1);
    assert(pow256(32) > 1) by {
        assert(two_pow_128() > 1);
        assert(pow256(16) * pow256(16) > 1) by (nonlinear_arith)
            requires pow256(16) > 1;
    }
    assert(pow256(32) * pow256(32) > pow256(32)) by (nonlinear_arith)
        requires pow256(32) > 1;
}

/// `256^64` is `(2^128)^4`.
pub proof fn lemma_pow256_64()
    ensures
        pow256(64) == two_pow_128() * two_pow_128() * (two_pow_128() * two_pow_128()),
        two_pow_128() == u128::MAX + 1,
{
    lemma_pow256_16();
    lemma_pow256_add(32, 32);
    lemma_pow256_add(16, 16);
}

/// `256^(m + n) == 256^m * 256^n`.
proof fn lemma_pow256_add(m: nat, n: nat)
    ensures
        pow256(m + n) == pow256(m) * pow256(n),
    decreases m,
{
    if m > 0 {
        lemma_pow256_add((m - 1) as nat, n);
        assert(pow256(m + n) == 256 * pow256((m - 1 + n) as nat));
        assert(256 * (pow256((m - 1) as nat) * pow256(n)) == (256 * pow256((m - 1) as nat)) * pow256(n)) by (nonlinear_arith);
    } else {
        assert(pow256(0) == 1);
    }
}

} // verus!
