//! Fixed-point decimals with eighteen fractional digits.
use vstd::prelude::*;

verus! {

/// The number of atomic units in `1.0`.
pub const ONE: u128 = 1_000_000_000_000_000_000;

/// `ONE` as a mathematical number.
pub open spec fn one() -> nat {
    1_000_000_000_000_000_000
}

/// A non-negative decimal, counted in units of `10^-18`.
#[derive(Clone, Copy, Debug, PartialEq, Eq, Structural)]
pub struct Decimal {
    pub atomics: u128,
}

/// `value * numerator / denominator`, rounded down.
pub open spec fn mul_div(value: nat, numerator: nat, denominator: nat) -> nat {
    value * numerator / denominator
}

/// A product with a factor of at most one is at most the other factor.
pub proof fn lemma_scaled_down(value: nat, factor: nat)
    requires
        factor <= one(),
    ensures
        mul_div(value, factor, one()) <= value,
{
    assert(value * factor / one() <= value) by (nonlinear_arith)
        requires factor <= one(), one() == 1_000_000_000_000_000_000;
}

/// Calls `cosmwasm_std::Uint128::checked_multiply_ratio`.
///
/// The product is taken in full width and divided, rounding down. There is no result where
/// the denominator is zero or the quotient needs more than 128 bits.
#[verifier::external_body]
pub(crate) fn multiply_ratio(value: u128, numerator: u128, denominator: u128) -> (r: Option<u128>)
    ensures
        match r {
            Some(v) => denominator != 0 && v == mul_div(value as nat, numerator as nat, denominator as nat),
            None => denominator == 0 || mul_div(value as nat, numerator as nat, denominator as nat)
                > u128::MAX,
        },
{
    let ratio = cosmwasm_std::Uint128::new(value).checked_multiply_ratio(numerator, denominator);
    ratio.ok().map(|v| v.u128())
}

} // verus!
