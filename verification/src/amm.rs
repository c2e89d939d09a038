//! Constant-product pool arithmetic.
//!
//! For a swap of `dx` credit tokens into a pool with reserves `(x, y)`, the
//! swapper receives `dy = (y * dx) / (x + dx)`, rounded toward zero, so the
//! product `x * y` never decreases.

use vstd::prelude::*;

use crate::common::Error;
use crate::marketplace::Pool;

verus! {

/// Whether `v` is representable as an `i128`.
pub open spec fn fits_i128(v: int) -> bool {
    i128::MIN <= v <= i128::MAX
}

pub open spec fn abs(v: int) -> int {
    if v < 0 {
        -v
    } else {
        v
    }
}

/// Integer division rounding toward zero, as Rust's `/` does.
pub open spec fn trunc_div(x: int, d: int) -> int {
    if (x >= 0) == (d > 0) {
        abs(x) / abs(d)
    } else {
        -(abs(x) / abs(d))
    }
}

/// The outcome of quoting a swap of `amount_in` credit tokens against
/// reserves `credit` and `paired`.
pub open spec fn swap_output(credit: i128, paired: i128, amount_in: i128) -> Result<i128, Error> {
    if amount_in <= 0 {
        Err(Error::NonPositiveAmount)
    } else if !fits_i128(paired * amount_in) {
        Err(Error::Overflow)
    } else if !fits_i128(credit + amount_in) {
        Err(Error::Overflow)
    } else if credit + amount_in == 0 {
        Err(Error::Overflow)
    } else if !fits_i128(trunc_div(paired * amount_in, credit + amount_in)) {
        Err(Error::Overflow)
    } else if trunc_div(paired * amount_in, credit + amount_in) <= 0 {
        Err(Error::NonPositiveAmount)
    } else {
        Ok(trunc_div(paired * amount_in, credit + amount_in) as i128)
    }
}

proof fn lemma_checked_div_is_trunc_div(x: i128, d: i128)
    requires
        d != 0,
    ensures
        x.checked_div(d) == (if fits_i128(trunc_div(x as int, d as int)) {
            Some(trunc_div(x as int, d as int) as i128)
        } else {
            None
        }),
{
    let xi = x as int;
    let di = d as int;
    if xi == 0 {
        assert(abs(xi) / abs(di) == 0) by (nonlinear_arith)
            requires
                xi == 0,
                abs(di) > 0,
        ;
    }
}

/// The amount of paired asset a swap of `amount_in` credit tokens into
/// `pool` pays out.
///
/// Refused with `NonPositiveAmount` for a non-positive input or a quote that
/// rounds to zero or below, and with `Overflow` when an intermediate value
/// leaves the `i128` range or the divisor is zero.
pub fn calculate_swap_output(pool: &Pool, amount_in: i128) -> (r: Result<i128, Error>)
    ensures
        r == swap_output(pool.credit_reserves, pool.paired_reserves, amount_in),
{
    if amount_in <= 0 {
        return Err(Error::NonPositiveAmount);
    }
    let numerator = match pool.paired_reserves.checked_mul(amount_in) {
        Some(v) => v,
        None => {
            return Err(Error::Overflow);
        },
    };
    let denominator = match pool.credit_reserves.checked_add(amount_in) {
        Some(v) => v,
        None => {
            return Err(Error::Overflow);
        },
    };
    if denominator == 0 {
        return Err(Error::Overflow);
    }
    proof {
        lemma_checked_div_is_trunc_div(numerator, denominator);
    }
    let amount_out = match numerator.checked_div(denominator) {
        Some(v) => v,
        None => {
            return Err(Error::Overflow);
        },
    };
    if amount_out <= 0 {
        return Err(Error::NonPositiveAmount);
    }
    Ok(amount_out)
}

/// On a pool with positive reserves, a quote pays out a positive amount
/// strictly below the paired reserve, so both reserves stay positive after
/// the swap, and the product of the reserves does not decrease.
pub proof fn law_swap_keeps_product(credit: i128, paired: i128, amount_in: i128)
    requires
        credit > 0,
        paired > 0,
        swap_output(credit, paired, amount_in) is Ok,
    ensures
        ({
            let out = swap_output(credit, paired, amount_in)->Ok_0;
            &&& 0 < out < paired
            &&& credit + amount_in > 0
            &&& (credit + amount_in) * (paired - out) >= credit * paired
        }),
{
    let out = swap_output(credit, paired, amount_in)->Ok_0;
    let n = paired * amount_in;
    let d = credit + amount_in;
    assert(n > 0) by (nonlinear_arith)
        requires
            paired > 0,
            amount_in > 0,
            n == paired * amount_in,
    ;
    assert(out as int == n / d);
    assert(out * d <= n) by (nonlinear_arith)
        requires
            d > 0,
            n >= 0,
            out as int == n / d,
    ;
    assert(out < paired) by (nonlinear_arith)
        requires
            out * d <= n,
            n == paired * amount_in,
            d == credit + amount_in,
            credit > 0,
            out > 0,
            amount_in > 0,
    ;
    assert(d * (paired - out) >= credit * paired) by (nonlinear_arith)
        requires
            out * d <= n,
            n == paired * amount_in,
            d == credit + amount_in,
    ;
}

/// A quote on reserves that are not negative succeeds exactly when
/// neither `paired * amount_in` nor `credit + amount_in` leaves the `i128`
/// range and the quotient is at least one: the payout is then that
/// quotient rounded down, `out * (credit + amount_in) <= paired * amount_in
/// < (out + 1) * (credit + amount_in)`. It fails with `Overflow` exactly when
/// one of the two leaves the range, and with `NonPositiveAmount` exactly
/// when the quotient rounds down to zero.
pub proof fn law_swap_quote(credit: i128, paired: i128, amount_in: i128)
    requires
        credit >= 0,
        paired >= 0,
        amount_in > 0,
    ensures
        ({
            let n = paired * amount_in;
            let d = credit + amount_in;
            let r = swap_output(credit, paired, amount_in);
            &&& r is Ok <==> n <= i128::MAX && d <= i128::MAX && n >= d
            &&& r is Ok ==> r->Ok_0 * d <= n < (r->Ok_0 + 1) * d
            &&& r == Err::<i128, Error>(Error::Overflow) <==> n > i128::MAX || d > i128::MAX
            &&& r == Err::<i128, Error>(Error::NonPositiveAmount) <==> n <= i128::MAX && d
                <= i128::MAX && n < d
        }),
{
    let n = paired * amount_in;
    let d = credit + amount_in;
    assert(n >= 0) by (nonlinear_arith)
        requires
            paired >= 0,
            amount_in > 0,
            n == paired * amount_in,
    ;
    if n <= i128::MAX && d <= i128::MAX {
        let qt = n / d;
        assert(trunc_div(n, d) == qt);
        assert(0 <= qt <= n && qt * d <= n < (qt + 1) * d && (qt >= 1 <==> n >= d)) by (nonlinear_arith)
            requires
                d > 0,
                n >= 0,
                qt == n / d,
        ;
    }
}

} // verus!
