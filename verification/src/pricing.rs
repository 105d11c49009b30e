//! The constant-product pricing rule on bare numbers, and what holds of it.

use vstd::prelude::*;
use vstd::arithmetic::div_mod::{
    lemma_div_is_ordered, lemma_div_multiples_vanish, lemma_fundamental_div_mod,
    lemma_mod_pos_bound, lemma_multiply_divide_lt,
};

verus! {

/// One hundred percent, in basis points.
pub const BPS_DENOMINATOR: u128 = 10000;

/// The input amount after the proportional fee, scaled by `BPS_DENOMINATOR`.
pub open spec fn amount_with_fee(amount_in: int, fee_bps: int) -> int {
    amount_in * (10000 - fee_bps)
}

/// Left side of the constant-product quotient.
pub open spec fn swap_numerator(reserve_out: int, fee_bps: int, amount_in: int) -> int {
    amount_with_fee(amount_in, fee_bps) * reserve_out
}

/// Right side of the constant-product quotient.
pub open spec fn swap_denominator(reserve_in: int, fee_bps: int, amount_in: int) -> int {
    reserve_in * 10000 + amount_with_fee(amount_in, fee_bps)
}

/// Output of a constant-product swap with the fee taken from the input:
/// `floor(a * reserve_out / (reserve_in * 10000 + a))` with
/// `a = amount_in * (10000 - fee_bps)`. A pool with nothing on the input side
/// and nothing offered trades nothing.
pub open spec fn swap_output(reserve_in: int, reserve_out: int, fee_bps: int, amount_in: int) -> int {
    if swap_denominator(reserve_in, fee_bps, amount_in) == 0 {
        0
    } else {
        swap_numerator(reserve_out, fee_bps, amount_in) / swap_denominator(
            reserve_in,
            fee_bps,
            amount_in,
        )
    }
}

/// The price query on bare numbers: no price when the fee exceeds one hundred
/// percent, when the numerator does not fit in 128 bits, or when the output
/// does not fit in 64 bits.
pub open spec fn swap_quote(reserve_in: u64, reserve_out: u64, fee_bps: u16, amount_in: u64) -> Option<
    u64,
> {
    if fee_bps > 10000 {
        None
    } else if swap_numerator(reserve_out as int, fee_bps as int, amount_in as int) > u128::MAX {
        None
    } else if swap_output(reserve_in as int, reserve_out as int, fee_bps as int, amount_in as int)
        > u64::MAX {
        None
    } else {
        Some(
            swap_output(
                reserve_in as int,
                reserve_out as int,
                fee_bps as int,
                amount_in as int,
            ) as u64,
        )
    }
}

/// With a fee of at most one hundred percent, neither the fee-scaled input
/// nor the denominator leaves 128 bits.
pub proof fn lemma_fee_scaling_fits(reserve_in: u64, fee_bps: u16, amount_in: u64)
    requires
        fee_bps <= 10000,
    ensures
        0 <= amount_with_fee(amount_in as int, fee_bps as int) <= 10000 * u64::MAX,
        reserve_in * 10000 <= 10000 * u64::MAX,
        0 <= swap_denominator(reserve_in as int, fee_bps as int, amount_in as int) <= u128::MAX,
{
    let keep: int = 10000 - fee_bps;
    let a: int = amount_in as int;
    assert(0 <= a * keep <= 10000 * 0xffff_ffff_ffff_ffff) by (nonlinear_arith)
        requires
            0 <= a <= 0xffff_ffff_ffff_ffff,
            0 <= keep <= 10000,
    ;
}

/// Paying nothing in buys nothing.
pub proof fn lemma_swap_nothing_in(reserve_in: int, reserve_out: int, fee_bps: int)
    ensures
        amount_with_fee(0, fee_bps) == 0,
        swap_numerator(reserve_out, fee_bps, 0) == 0,
        swap_output(reserve_in, reserve_out, fee_bps, 0) == 0,
{
    assert(0 * (10000 - fee_bps) == 0) by (nonlinear_arith);
    assert(0 * reserve_out == 0) by (nonlinear_arith);
    let den = swap_denominator(reserve_in, fee_bps, 0);
    if den != 0 {
        assert(0int / den == 0) by (nonlinear_arith)
            requires
                den != 0,
        ;
    }
}

/// A swap never pays out more than the reserve it draws from.
pub proof fn lemma_swap_output_bounded(reserve_in: int, reserve_out: int, fee_bps: int, amount_in: int)
    requires
        0 <= reserve_in,
        0 <= reserve_out,
        0 <= fee_bps <= 10000,
        0 <= amount_in,
    ensures
        0 <= swap_output(reserve_in, reserve_out, fee_bps, amount_in) <= reserve_out,
{
    let a = amount_with_fee(amount_in, fee_bps);
    let den = swap_denominator(reserve_in, fee_bps, amount_in);
    let num = swap_numerator(reserve_out, fee_bps, amount_in);
    assert(0 <= a) by (nonlinear_arith)
        requires
            a == amount_in * (10000 - fee_bps),
            0 <= amount_in,
            0 <= 10000 - fee_bps,
    ;
    if den != 0 {
        assert(0 <= num <= den * reserve_out) by (nonlinear_arith)
            requires
                num == a * reserve_out,
                0 <= a <= den,
                0 <= reserve_out,
        ;
        lemma_div_is_ordered(num, den * reserve_out, den);
        lemma_div_is_ordered(0, num, den);
        assert(den * reserve_out == reserve_out * den) by (nonlinear_arith);
        lemma_div_multiples_vanish(reserve_out, den);
    }
}


/// Floors keep the order of fractions: `p / q <= p2 / q2` as fractions gives
/// the same for their integer quotients.
pub proof fn lemma_quotients_ordered(p: int, q: int, p2: int, q2: int)
    requires
        0 <= p,
        0 < q,
        0 < q2,
        p * q2 <= p2 * q,
    ensures
        p / q <= p2 / q2,
{
    let u = p / q;
    lemma_fundamental_div_mod(p, q);
    lemma_mod_pos_bound(p, q);
    assert(q * u <= p);
    assert(u * q2 <= p2) by (nonlinear_arith)
        requires
            q * u <= p,
            p * q2 <= p2 * q,
            0 < q,
            0 < q2,
    ;
    lemma_div_is_ordered(u * q2, p2, q2);
    assert(u * q2 == q2 * u) by (nonlinear_arith);
    lemma_div_multiples_vanish(u, q2);
}

/// Paying more in never buys less.
pub proof fn lemma_swap_output_monotonic(
    reserve_in: int,
    reserve_out: int,
    fee_bps: int,
    smaller: int,
    larger: int,
)
    requires
        0 <= reserve_in,
        0 <= reserve_out,
        0 <= fee_bps <= 10000,
        0 <= smaller <= larger,
    ensures
        swap_numerator(reserve_out, fee_bps, smaller) <= swap_numerator(
            reserve_out,
            fee_bps,
            larger,
        ),
        swap_output(reserve_in, reserve_out, fee_bps, smaller) <= swap_output(
            reserve_in,
            reserve_out,
            fee_bps,
            larger,
        ),
{
    let keep = 10000 - fee_bps;
    let x = amount_with_fee(smaller, fee_bps);
    let y = amount_with_fee(larger, fee_bps);
    let base = reserve_in * 10000;
    assert(0 <= x <= y) by (nonlinear_arith)
        requires
            x == smaller * keep,
            y == larger * keep,
            0 <= smaller <= larger,
            0 <= keep,
    ;
    assert(x * reserve_out <= y * reserve_out) by (nonlinear_arith)
        requires
            0 <= x <= y,
            0 <= reserve_out,
    ;
    lemma_swap_output_bounded(reserve_in, reserve_out, fee_bps, larger);
    if base + x != 0 {
        let r = reserve_out;
        assert(0 <= x * r) by (nonlinear_arith)
            requires
                0 <= x,
                0 <= r,
        ;
        assert((x * r) * (base + y) <= (y * r) * (base + x)) by (nonlinear_arith)
            requires
                0 <= x <= y,
                0 <= r,
                0 <= base,
        ;
        lemma_quotients_ordered(x * r, base + x, y * r, base + y);
    }
}

/// While both reserves hold something, a swap pays out strictly less than
/// the whole reserve it draws from.
pub proof fn lemma_swap_output_below_reserve(
    reserve_in: int,
    reserve_out: int,
    fee_bps: int,
    amount_in: int,
)
    requires
        0 < reserve_in,
        0 < reserve_out,
        0 <= fee_bps <= 10000,
        0 <= amount_in,
    ensures
        swap_output(reserve_in, reserve_out, fee_bps, amount_in) < reserve_out,
{
    let a = amount_with_fee(amount_in, fee_bps);
    let den = swap_denominator(reserve_in, fee_bps, amount_in);
    assert(0 <= a) by (nonlinear_arith)
        requires
            a == amount_in * (10000 - fee_bps),
            0 <= amount_in,
            0 <= 10000 - fee_bps,
    ;
    assert(a * reserve_out < den * reserve_out) by (nonlinear_arith)
        requires
            0 <= a < den,
            0 < reserve_out,
    ;
    lemma_multiply_divide_lt(a * reserve_out, den, reserve_out);
}

} // verus!
