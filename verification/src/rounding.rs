//! Fixed-point money arithmetic.
//!
//! Monetary amounts are integer numbers of cents; annual interest rates are
//! integer numbers of thousandths of a percent.  Every division or rate
//! multiplication rounds to whole cents with banker's rounding (half to
//! even), the rule `round_half_even` states.  The executable arithmetic is
//! carried out by `rust_decimal`.

use vstd::prelude::*;

verus! {

/// Largest amount, in cents, the engine computes with.
pub const MAX_AMOUNT_CENTS: u64 = 10_000_000_000_000;

/// Largest annual rate, in thousandths of a percent (1_000_000 = 1000%).
pub const MAX_RATE_MILLI_PCT: u32 = 1_000_000;

/// An annual rate of `r` thousandths of a percent charges `r / MONTHLY_RATE_DENOM`
/// of the balance per month: r / 1000 (percent) / 100 (fraction) / 12 (months).
pub const MONTHLY_RATE_DENOM: u64 = 1_200_000;

/// Banker's rounding (round half to even) of the rational `num / den`:
/// the rounding rule of every monetary computation in this crate.
pub open spec fn round_half_even(num: int, den: int) -> int
    recommends
        num >= 0,
        den >= 1,
{
    let q = num / den;
    let r = num % den;
    if 2 * r < den {
        q
    } else if 2 * r > den {
        q + 1
    } else if q % 2 == 0 {
        q
    } else {
        q + 1
    }
}

/// Interest owed for one month on `balance` cents at `rate` thousandths of
/// a percent per annum, rounded to whole cents.
pub open spec fn monthly_interest(balance: int, rate: int) -> int {
    round_half_even(balance * rate, MONTHLY_RATE_DENOM as int)
}

/// A rounded quotient never exceeds `m` when the numerator is at most `m * den`.
pub proof fn lemma_round_half_even_le(num: int, den: int, m: int)
    requires
        0 <= num,
        1 <= den,
        num <= m * den,
    ensures
        round_half_even(num, den) <= m,
{
    let q = num / den;
    let r = num % den;
    vstd::arithmetic::div_mod::lemma_fundamental_div_mod(num, den);
    assert(0 <= r < den) by {
        vstd::arithmetic::div_mod::lemma_mod_bound(num, den);
    }
    assert(q <= m) by (nonlinear_arith)
        requires
            num == den * q + r,
            0 <= r < den,
            num <= m * den,
            1 <= den,
    ;
    if round_half_even(num, den) == q + 1 {
        assert(r >= 1);
        assert(q < m) by (nonlinear_arith)
            requires
                num == den * q + r,
                1 <= r < den,
                num <= m * den,
                1 <= den,
        ;
    }
}

/// Quotient of `amount` cents by `divisor`, rounded to whole cents with
/// banker's rounding.
///
/// Relies on rust_decimal: `Decimal` division on values in these ranges is
/// exact to well past the half-cent boundary (ties are exactly
/// representable), and `round_dp(0)` rounds half to even.
#[verifier::external_body]
pub(crate) fn div_round2(amount: u64, divisor: u32) -> (r: u64)
    requires
        amount <= MAX_AMOUNT_CENTS,
        1 <= divisor,
    ensures
        r == round_half_even(amount as int, divisor as int),
{
    let d = rust_decimal::Decimal::from(amount) / rust_decimal::Decimal::from(divisor);
    rust_decimal::prelude::ToPrimitive::to_u64(&d.round_dp(0)).unwrap()
}

/// One month's interest on `amount` cents at `rate` thousandths of a percent
/// per annum, rounded to whole cents with banker's rounding.
///
/// Relies on rust_decimal: the product of values in these ranges is exact in
/// `Decimal`, division is exact to well past the half-cent boundary (ties
/// are exactly representable), and `round_dp(0)` rounds half to even.
#[verifier::external_body]
pub(crate) fn mul_rate_round2(amount: u64, rate: u32) -> (r: u64)
    requires
        amount <= MAX_AMOUNT_CENTS,
        rate <= MAX_RATE_MILLI_PCT,
    ensures
        r == monthly_interest(amount as int, rate as int),
{
    let d = rust_decimal::Decimal::from(amount) * rust_decimal::Decimal::from(rate)
        / rust_decimal::Decimal::from(MONTHLY_RATE_DENOM);
    rust_decimal::prelude::ToPrimitive::to_u64(&d.round_dp(0)).unwrap()
}

} // verus!
