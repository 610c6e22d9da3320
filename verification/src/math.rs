//! The pool's arithmetic: multiply-then-divide with both roundings, the
//! integer square root used to size the first deposit, and the
//! constant-product swap formula.
use vstd::arithmetic::div_mod::*;
use vstd::prelude::*;

use crate::error::AmmError;

verus! {

/// `a * b / d`, rounded down.
pub open spec fn mul_div_floor(a: int, b: int, d: int) -> int {
    (a * b) / d
}

/// `a * b / d`, rounded up.
pub open spec fn mul_div_ceil(a: int, b: int, d: int) -> int {
    (a * b + d - 1) / d
}

/// `r` is the square root of `n`, rounded down.
pub open spec fn is_floor_sqrt(n: nat, r: nat) -> bool {
    r * r <= n && n < (r + 1) * (r + 1)
}

/// The square root of `n`, rounded down.
pub open spec fn floor_sqrt(n: nat) -> nat {
    choose|r: nat| is_floor_sqrt(n, r)
}

/// What a constant-product pool with reserves `reserve_in` and
/// `reserve_out` pays out for `net_input` tokens: the largest amount that
/// keeps `reserve_in * reserve_out` from decreasing.
pub open spec fn constant_product_output(reserve_in: int, reserve_out: int, net_input: int) -> int {
    (reserve_out * net_input) / (reserve_in + net_input)
}

/// Paying `out` for `net_input` leaves the product of the reserves at least
/// where it was.
pub open spec fn keeps_k(reserve_in: int, reserve_out: int, net_input: int, out: int) -> bool {
    (reserve_in + net_input) * (reserve_out - out) >= reserve_in * reserve_out
}

/// An output keeps `k` exactly when it is at most the exact price:
/// `out * (reserve_in + net_input) <= reserve_out * net_input`.
pub proof fn lemma_keeps_k_iff(reserve_in: int, reserve_out: int, net_input: int, out: int)
    ensures
        keeps_k(reserve_in, reserve_out, net_input, out) <==> out * (reserve_in + net_input)
            <= reserve_out * net_input,
{
    assert((reserve_in + net_input) * (reserve_out - out) == reserve_in * reserve_out + net_input
        * reserve_out - out * (reserve_in + net_input)) by (nonlinear_arith);
    assert(net_input * reserve_out == reserve_out * net_input) by (nonlinear_arith);
}

/// The constant-product output is the most the pool can pay without
/// lowering the product of its reserves.
pub proof fn lemma_output_is_most_that_keeps_k(reserve_in: int, reserve_out: int, net_input: int)
    requires
        reserve_in > 0,
        reserve_out > 0,
        net_input >= 0,
    ensures
        keeps_k(
            reserve_in,
            reserve_out,
            net_input,
            constant_product_output(reserve_in, reserve_out, net_input),
        ),
        !keeps_k(
            reserve_in,
            reserve_out,
            net_input,
            constant_product_output(reserve_in, reserve_out, net_input) + 1,
        ),
{
    let out = constant_product_output(reserve_in, reserve_out, net_input);
    assert(reserve_out * net_input >= 0) by (nonlinear_arith)
        requires
            reserve_out > 0,
            net_input >= 0,
    ;
    lemma_floor_div_bounds(reserve_out * net_input, reserve_in + net_input);
    lemma_keeps_k_iff(reserve_in, reserve_out, net_input, out);
    lemma_keeps_k_iff(reserve_in, reserve_out, net_input, out + 1);
}

/// The product of two `u64` values, plus anything below `2^64`, fits in a
/// `u128`.
pub proof fn lemma_u64_product_fits_u128(a: u64, b: u64, extra: u64)
    ensures
        (a as int) * (b as int) + (extra as int) <= u128::MAX,
{
    assert((a as int) * (b as int) <= (u64::MAX as int) * (u64::MAX as int)) by (nonlinear_arith)
        requires
            a <= u64::MAX,
            b <= u64::MAX,
            0 <= a,
            0 <= b,
    ;
}

/// The quotient rounded down is the largest `q` with `q * d <= x`.
pub proof fn lemma_floor_div_bounds(x: int, d: int)
    requires
        x >= 0,
        d > 0,
    ensures
        x / d >= 0,
        (x / d) * d <= x,
        x < (x / d + 1) * d,
{
    lemma_fundamental_div_mod(x, d);
    lemma_mod_pos_bound(x, d);
    lemma_div_pos_is_pos(x, d);
    assert((x / d) * d == d * (x / d)) by (nonlinear_arith);
    assert((x / d + 1) * d == d * (x / d) + d) by (nonlinear_arith);
}

/// The quotient rounded up is the smallest `c` with `c * d >= x`.
pub proof fn lemma_ceil_div_bounds(x: int, d: int)
    requires
        x >= 0,
        d > 0,
    ensures
        (x + d - 1) / d >= 0,
        ((x + d - 1) / d) * d >= x,
        ((x + d - 1) / d - 1) * d < x,
{
    lemma_floor_div_bounds(x + d - 1, d);
    let c = (x + d - 1) / d;
    assert((c - 1) * d == c * d - d) by (nonlinear_arith);
    assert((c + 1) * d == c * d + d) by (nonlinear_arith);
}

/// A square root rounded down of a product of two `u64` values fits in a
/// `u64`.
pub proof fn lemma_sqrt_of_u64_product_fits(a: u64, b: u64, s: int)
    requires
        s >= 0,
        s * s <= (a as int) * (b as int),
    ensures
        s <= u64::MAX,
{
    lemma_u64_product_fits_u128(a, b, 0);
    if s > u64::MAX {
        assert(s * s >= 0x1_0000_0000_0000_0000 * 0x1_0000_0000_0000_0000) by (nonlinear_arith)
            requires
                s >= 0x1_0000_0000_0000_0000,
        ;
    }
}

/// Of the square roots rounded down there is only one.
pub proof fn lemma_floor_sqrt_unique(n: nat, r: nat)
    requires
        is_floor_sqrt(n, r),
    ensures
        floor_sqrt(n) == r,
{
    let s = floor_sqrt(n);
    assert(is_floor_sqrt(n, s));
    if s < r {
        assert((s + 1) * (s + 1) <= r * r) by (nonlinear_arith)
            requires
                s + 1 <= r,
                0 <= s,
        ;
    } else if r < s {
        assert((r + 1) * (r + 1) <= s * s) by (nonlinear_arith)
            requires
                r + 1 <= s,
                0 <= r,
        ;
    }
}

/// One Newton step `(x + n / x) / 2` never lands below the square root of
/// `n`.
proof fn lemma_newton_step_stays_above(n: int, x: int)
    requires
        0 <= n,
        1 <= x,
    ensures
        n < ((x + n / x) / 2 + 1) * ((x + n / x) / 2 + 1),
{
    let q = n / x;
    let y = (x + q) / 2;
    let t = q + 1;
    lemma_fundamental_div_mod(n, x);
    lemma_mod_pos_bound(n, x);
    lemma_div_pos_is_pos(n, x);
    assert(n < x * t) by (nonlinear_arith)
        requires
            n == x * q + n % x,
            n % x < x,
            t == q + 1,
    ;
    assert(2 * y + 2 >= x + t);
    assert((x + t) * (x + t) >= 4 * (x * t)) by (nonlinear_arith);
    assert((2 * y + 2) * (2 * y + 2) >= (x + t) * (x + t)) by (nonlinear_arith)
        requires
            2 * y + 2 >= x + t,
            x + t >= 0,
    ;
    assert(4 * ((y + 1) * (y + 1)) == (2 * y + 2) * (2 * y + 2)) by (nonlinear_arith);
}

/// Above the square root, a Newton step strictly decreases.
proof fn lemma_newton_step_decreases(n: int, x: int)
    requires
        0 <= n,
        1 <= x,
        x * x > n,
    ensures
        (x + n / x) / 2 < x,
{
    let q = n / x;
    lemma_fundamental_div_mod(n, x);
    lemma_mod_pos_bound(n, x);
    if q >= x {
        assert(x * q >= x * x) by (nonlinear_arith)
            requires
                q >= x,
                x >= 1,
        ;
    }
}

/// The sum computed by a Newton step does not overflow while the iterate
/// stays at most half the radicand (rounded up).
proof fn lemma_newton_sum_fits(n: int, x: int)
    requires
        2 <= n,
        1 <= x <= (n + 1) / 2,
        n < (x + 1) * (x + 1),
    ensures
        x + n / x <= n || (x == 1 && n < 4 && n / x == n),
{
    if x == 1 {
        assert((x + 1) * (x + 1) == 4) by (nonlinear_arith)
            requires
                x == 1,
        ;
        assert(n / 1 == n);
    } else {
        lemma_div_is_ordered_by_denominator(n, 2, x);
    }
}

/// Returns `a * b / denominator` rounded down, or `MathOverflow` when the
/// denominator is zero or the quotient does not fit in a `u64`.
pub fn checked_mul_div_floor(a: u64, b: u64, denominator: u64) -> (r: Result<u64, AmmError>)
    ensures
        match r {
            Ok(v) => denominator > 0 && v == mul_div_floor(a as int, b as int, denominator as int),
            Err(e) => e == AmmError::MathOverflow && (denominator == 0 || mul_div_floor(
                a as int,
                b as int,
                denominator as int,
            ) > u64::MAX),
        },
{
    if denominator == 0 {
        return Err(AmmError::MathOverflow);
    }
    proof {
        lemma_u64_product_fits_u128(a, b, 0);
    }
    let product: u128 = (a as u128) * (b as u128);
    let value: u128 = product / (denominator as u128);
    if value > u64::MAX as u128 {
        Err(AmmError::MathOverflow)
    } else {
        Ok(value as u64)
    }
}

/// Returns `a * b / denominator` rounded up, or `MathOverflow` when the
/// denominator is zero or the quotient does not fit in a `u64`.
pub fn checked_mul_div_ceil(a: u64, b: u64, denominator: u64) -> (r: Result<u64, AmmError>)
    ensures
        match r {
            Ok(v) => denominator > 0 && v == mul_div_ceil(a as int, b as int, denominator as int),
            Err(e) => e == AmmError::MathOverflow && (denominator == 0 || mul_div_ceil(
                a as int,
                b as int,
                denominator as int,
            ) > u64::MAX),
        },
{
    if denominator == 0 {
        return Err(AmmError::MathOverflow);
    }
    proof {
        lemma_u64_product_fits_u128(a, b, (denominator - 1) as u64);
    }
    let product: u128 = (a as u128) * (b as u128);
    let value: u128 = (product + (denominator - 1) as u128) / (denominator as u128);
    if value > u64::MAX as u128 {
        Err(AmmError::MathOverflow)
    } else {
        Ok(value as u64)
    }
}

/// The square root of `value`, rounded down, by Newton's iteration.
pub fn integer_sqrt(value: u128) -> (r: u64)
    ensures
        r == floor_sqrt(value as nat),
        is_floor_sqrt(value as nat, r as nat),
{
    if value < 2 {
        proof {
            if value == 0 {
                assert(0nat * 0nat == 0nat);
            } else {
                assert(1nat * 1nat == 1nat);
            }
            assert((value as nat + 1) * (value as nat + 1) > value as nat) by (nonlinear_arith)
                requires
                    value < 2,
            ;
            lemma_floor_sqrt_unique(value as nat, value as nat);
        }
        return value as u64;
    }
    let mut x: u128 = value;
    let mut y: u128 = value / 2 + value % 2;
    proof {
        assert(value * value > value) by (nonlinear_arith)
            requires
                value >= 2,
        ;
        assert(value < (value + 1) * (value + 1)) by (nonlinear_arith)
            requires
                value >= 2,
        ;
        assert(value < (y + 1) * (y + 1)) by (nonlinear_arith)
            requires
                2 * y >= value,
                y >= 0,
        ;
    }
    while y < x
        invariant
            2 <= value,
            1 <= x <= value,
            y < x ==> y <= (value + 1) / 2,
            value < (x + 1) * (x + 1),
            value < (y + 1) * (y + 1),
            x * x > value ==> y < x,
        decreases x,
    {
        x = y;
        assert(1 <= x) by (nonlinear_arith)
            requires
                value < (x + 1) * (x + 1),
                2 <= value,
        ;
        proof {
            lemma_newton_sum_fits(value as int, x as int);
            lemma_newton_step_stays_above(value as int, x as int);
            if x * x > value {
                lemma_newton_step_decreases(value as int, x as int);
            }
        }
        y = (x + value / x) / 2;
    }
    assert(x < 0x1_0000_0000_0000_0000) by (nonlinear_arith)
        requires
            x * x <= value,
            value <= u128::MAX,
            0 <= x,
    ;
    proof {
        lemma_floor_sqrt_unique(value as nat, x as nat);
    }
    x as u64
}

/// The constant-product output for `net_input` tokens paid into a pool
/// with reserves `reserve_in` and `reserve_out`, rounded down.
///
/// Refuses with `InsufficientLiquidity` when either reserve is empty and
/// with `MathOverflow` when `reserve_in + net_input` does not fit in a
/// `u64`. The output is always below `reserve_out`: no swap drains a
/// reserve.
pub fn swap_output(reserve_in: u64, reserve_out: u64, net_input: u64) -> (r: Result<u64, AmmError>)
    ensures
        match r {
            Ok(v) => {
                &&& reserve_in > 0
                &&& reserve_out > 0
                &&& reserve_in + net_input <= u64::MAX
                &&& v == constant_product_output(
                    reserve_in as int,
                    reserve_out as int,
                    net_input as int,
                )
                &&& v < reserve_out
                &&& keeps_k(reserve_in as int, reserve_out as int, net_input as int, v as int)
                &&& !keeps_k(reserve_in as int, reserve_out as int, net_input as int, v + 1)
            },
            Err(e) => {
                ||| ((reserve_in == 0 || reserve_out == 0) && e == AmmError::InsufficientLiquidity)
                ||| (reserve_in > 0 && reserve_out > 0 && reserve_in + net_input > u64::MAX && e
                    == AmmError::MathOverflow)
            },
        },
{
    if !(reserve_in > 0 && reserve_out > 0) {
        return Err(AmmError::InsufficientLiquidity);
    }
    let denominator = match reserve_in.checked_add(net_input) {
        Some(d) => d,
        None => {
            return Err(AmmError::MathOverflow);
        },
    };
    proof {
        lemma_output_below_reserve(reserve_in as int, reserve_out as int, net_input as int);
        lemma_output_is_most_that_keeps_k(reserve_in as int, reserve_out as int, net_input as int);
    }
    checked_mul_div_floor(reserve_out, net_input, denominator)
}

/// The constant-product output is always smaller than the reserve it is
/// paid from.
pub proof fn lemma_output_below_reserve(reserve_in: int, reserve_out: int, net_input: int)
    requires
        reserve_in > 0,
        reserve_out > 0,
        net_input >= 0,
    ensures
        0 <= constant_product_output(reserve_in, reserve_out, net_input) < reserve_out,
{
    let d = reserve_in + net_input;
    assert(reserve_out * net_input < reserve_out * d) by (nonlinear_arith)
        requires
            reserve_out > 0,
            net_input < d,
    ;
    assert(reserve_out * net_input >= 0) by (nonlinear_arith)
        requires
            reserve_out > 0,
            net_input >= 0,
    ;
    lemma_div_pos_is_pos(reserve_out * net_input, d);
    lemma_div_is_ordered(reserve_out * net_input, reserve_out * d - 1, d);
    assert((reserve_out * d - 1) / d < reserve_out) by {
        lemma_fundamental_div_mod(reserve_out * d - 1, d);
        lemma_mod_pos_bound(reserve_out * d - 1, d);
        assert(reserve_out * d - 1 >= 0) by (nonlinear_arith)
            requires
                reserve_out > 0,
                d > 0,
        ;
        if (reserve_out * d - 1) / d >= reserve_out {
            assert(d * ((reserve_out * d - 1) / d) >= d * reserve_out) by (nonlinear_arith)
                requires
                    (reserve_out * d - 1) / d >= reserve_out,
                    d > 0,
            ;
        }
    }
}

} // verus!
