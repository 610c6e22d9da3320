//! Properties that span more than one instruction.
use vstd::arithmetic::div_mod::*;
use vstd::prelude::*;

use crate::instructions::add_liquidity::{add_liquidity_outcome, lemma_ceil_cost_within_budget, lemma_ceil_covers, AddLiquidity};
use crate::instructions::remove_liquidity::{remove_liquidity_outcome, RemoveLiquidity};
use crate::instructions::swap::{swap_accounts_valid, swap_outcome, Swap};
use crate::constants::MINIMUM_LIQUIDITY;
use crate::error::AmmError;
use crate::math::{
    lemma_ceil_div_bounds,
    lemma_floor_div_bounds,
    lemma_floor_sqrt_unique,
    lemma_sqrt_of_u64_product_fits,
    lemma_keeps_k_iff,
    lemma_output_is_most_that_keeps_k,
    keeps_k,
    constant_product_output,
    floor_sqrt,
    is_floor_sqrt,
    mul_div_floor,
};

verus! {

/// Depositing into a well-formed pool and at once burning the shares the
/// deposit minted never pays out more of either token than the deposit
/// took: rounding always favours the shares that stay in the pool.
pub proof fn deposit_then_withdraw_never_gains(
    deposit: AddLiquidity,
    max_amount_a: u64,
    max_amount_b: u64,
    min_shares: u64,
    withdrawal: RemoveLiquidity,
    min_amount_a: u64,
    min_amount_b: u64,
)
    requires
        deposit.pool.wf(),
        add_liquidity_outcome(deposit, max_amount_a, max_amount_b, min_shares) is Ok,
        withdrawal.pool == add_liquidity_outcome(
            deposit,
            max_amount_a,
            max_amount_b,
            min_shares,
        )->Ok_0.0.pool,
        remove_liquidity_outcome(
            withdrawal,
            add_liquidity_outcome(deposit, max_amount_a, max_amount_b, min_shares)->Ok_0.1.shares,
            min_amount_a,
            min_amount_b,
        ) is Ok,
    ensures
        ({
            let added = add_liquidity_outcome(
                deposit,
                max_amount_a,
                max_amount_b,
                min_shares,
            )->Ok_0.1;
            let removed = remove_liquidity_outcome(
                withdrawal,
                added.shares,
                min_amount_a,
                min_amount_b,
            )->Ok_0.1;
            removed.amount_a <= added.amount_a && removed.amount_b <= added.amount_b
        }),
{
    let added = add_liquidity_outcome(deposit, max_amount_a, max_amount_b, min_shares)->Ok_0.1;
    let s = added.shares as int;
    let ts = deposit.pool.total_shares as int;
    if ts > 0 {
        let ra = deposit.pool.reserve_a as int;
        let rb = deposit.pool.reserve_b as int;
        assert(s <= mul_div_floor(max_amount_a as int, ts, ra));
        assert(s <= mul_div_floor(max_amount_b as int, ts, rb));
        lemma_ceil_cost_within_budget(s, max_amount_a as int, ra, ts);
        lemma_ceil_cost_within_budget(s, max_amount_b as int, rb, ts);
        lemma_ceil_covers(s, deposit.pool.reserve_a as int, ts);
        lemma_ceil_covers(s, deposit.pool.reserve_b as int, ts);
    } else {
        assert(added.amount_a * ts == 0) by (nonlinear_arith)
            requires
                ts == 0,
        ;
        assert(added.amount_b * ts == 0) by (nonlinear_arith)
            requires
                ts == 0,
        ;
    }
    lemma_round_trip_one_token(deposit.pool.reserve_a as int, added.amount_a as int, ts, s);
    lemma_round_trip_one_token(deposit.pool.reserve_b as int, added.amount_b as int, ts, s);
}

/// For one token: a pool with `reserve` backing `total` shares takes
/// `amount` for `s` new shares, with `amount * total >= s * reserve` (or
/// the pool was empty); paying `s` shares back out then returns at most
/// `amount`.
proof fn lemma_round_trip_one_token(reserve: int, amount: int, total: int, s: int)
    requires
        reserve >= 0,
        amount >= 0,
        total >= 0,
        s > 0,
        total == 0 ==> reserve == 0,
        amount * total >= s * reserve,
    ensures
        mul_div_floor(s, reserve + amount, total + s) <= amount,
{
    let d = total + s;
    let p = s * (reserve + amount);
    assert(p <= amount * d) by (nonlinear_arith)
        requires
            amount * total >= s * reserve,
            p == s * (reserve + amount),
            d == total + s,
    ;
    assert(p >= 0) by (nonlinear_arith)
        requires
            p == s * (reserve + amount),
            s > 0,
            reserve >= 0,
            amount >= 0,
    ;
    lemma_div_is_ordered(p, amount * d, d);
    lemma_div_by_multiple(amount, d);
}

/// A deposit into a pool that already has shares mints every share the
/// scarcer token pays for: the shares it mints are affordable in both
/// tokens at the pool's exact price, one share more would not be
/// affordable in one of them, and each token is charged the exact price of
/// the shares rounded up to the next whole token.
pub proof fn deposit_mints_every_affordable_share(
    ctx: AddLiquidity,
    max_amount_a: u64,
    max_amount_b: u64,
    min_shares: u64,
)
    requires
        ctx.pool.total_shares > 0,
        add_liquidity_outcome(ctx, max_amount_a, max_amount_b, min_shares) is Ok,
    ensures
        ({
            let added = add_liquidity_outcome(
                ctx,
                max_amount_a,
                max_amount_b,
                min_shares,
            )->Ok_0.1;
            let ra = ctx.pool.reserve_a as int;
            let rb = ctx.pool.reserve_b as int;
            let ts = ctx.pool.total_shares as int;
            &&& added.shares * ra <= max_amount_a * ts
            &&& added.shares * rb <= max_amount_b * ts
            &&& (added.shares + 1) * ra > max_amount_a * ts || (added.shares + 1) * rb
                > max_amount_b * ts
            &&& added.amount_a * ts >= added.shares * ra
            &&& (added.amount_a - 1) * ts < added.shares * ra
            &&& added.amount_b * ts >= added.shares * rb
            &&& (added.amount_b - 1) * ts < added.shares * rb
        }),
{
    let ra = ctx.pool.reserve_a as int;
    let rb = ctx.pool.reserve_b as int;
    let ts = ctx.pool.total_shares as int;
    let added = add_liquidity_outcome(ctx, max_amount_a, max_amount_b, min_shares)->Ok_0.1;
    let ma = max_amount_a as int;
    let mb = max_amount_b as int;
    assert(ra > 0 && rb > 0);
    assert(ma * ts >= 0) by (nonlinear_arith)
        requires
            ma >= 0,
            ts > 0,
    ;
    assert(mb * ts >= 0) by (nonlinear_arith)
        requires
            mb >= 0,
            ts > 0,
    ;
    lemma_floor_div_bounds(ma * ts, ra);
    lemma_floor_div_bounds(mb * ts, rb);
    let sa = mul_div_floor(ma, ts, ra);
    let sb = mul_div_floor(mb, ts, rb);
    let s = added.shares as int;
    assert(s == if sa <= sb { sa } else { sb });
    lemma_ceil_cost_within_budget(s, ma, ra, ts);
    lemma_ceil_cost_within_budget(s, mb, rb, ts);
    assert(s * ra <= ma * ts) by (nonlinear_arith)
        requires
            s <= sa,
            sa * ra <= ma * ts,
            ra > 0,
    ;
    assert(s * rb <= mb * ts) by (nonlinear_arith)
        requires
            s <= sb,
            sb * rb <= mb * ts,
            rb > 0,
    ;
    assert(s * ra >= 0) by (nonlinear_arith)
        requires
            s >= 0,
            ra > 0,
    ;
    assert(s * rb >= 0) by (nonlinear_arith)
        requires
            s >= 0,
            rb > 0,
    ;
    lemma_ceil_div_bounds(s * ra, ts);
    lemma_ceil_div_bounds(s * rb, ts);
}

/// A deposit into a pool that already has shares goes through whenever
/// the caller offers some of both tokens, the vaults match the reserves,
/// the shares each token pays for fit in a `u64`, the most shares both
/// together pay for is positive and meets the caller's minimum, and the
/// new totals fit; it then mints exactly those shares.
pub proof fn deposit_into_funded_pool_succeeds(
    ctx: AddLiquidity,
    max_amount_a: u64,
    max_amount_b: u64,
    min_shares: u64,
    s: int,
)
    requires
        max_amount_a > 0,
        max_amount_b > 0,
        ctx.vault_a.amount == ctx.pool.reserve_a,
        ctx.vault_b.amount == ctx.pool.reserve_b,
        ctx.pool.total_shares > 0,
        ctx.pool.reserve_a > 0,
        ctx.pool.reserve_b > 0,
        max_amount_a * ctx.pool.total_shares < (u64::MAX + 1) * ctx.pool.reserve_a,
        max_amount_b * ctx.pool.total_shares < (u64::MAX + 1) * ctx.pool.reserve_b,
        s * ctx.pool.reserve_a <= max_amount_a * ctx.pool.total_shares,
        s * ctx.pool.reserve_b <= max_amount_b * ctx.pool.total_shares,
        (s + 1) * ctx.pool.reserve_a > max_amount_a * ctx.pool.total_shares || (s + 1)
            * ctx.pool.reserve_b > max_amount_b * ctx.pool.total_shares,
        s > 0,
        s >= min_shares,
        ctx.pool.reserve_a + max_amount_a <= u64::MAX,
        ctx.pool.reserve_b + max_amount_b <= u64::MAX,
        ctx.pool.total_shares + s <= u64::MAX,
        ctx.position.shares + s <= u64::MAX,
    ensures
        add_liquidity_outcome(ctx, max_amount_a, max_amount_b, min_shares) is Ok,
        add_liquidity_outcome(ctx, max_amount_a, max_amount_b, min_shares)->Ok_0.1.shares == s,
{
    let ra = ctx.pool.reserve_a as int;
    let rb = ctx.pool.reserve_b as int;
    let ts = ctx.pool.total_shares as int;
    let ma = max_amount_a as int;
    let mb = max_amount_b as int;
    assert(ma * ts >= 0) by (nonlinear_arith)
        requires
            ma >= 0,
            ts > 0,
    ;
    assert(mb * ts >= 0) by (nonlinear_arith)
        requires
            mb >= 0,
            ts > 0,
    ;
    lemma_floor_div_bounds(ma * ts, ra);
    lemma_floor_div_bounds(mb * ts, rb);
    let sa = mul_div_floor(ma, ts, ra);
    let sb = mul_div_floor(mb, ts, rb);
    lemma_quotient_is_unique(ma * ts, ra, sa, u64::MAX + 1);
    lemma_quotient_is_unique(mb * ts, rb, sb, u64::MAX + 1);
    // `s` is the smaller of the two quotients.
    lemma_below_quotient(ma * ts, ra, sa, s);
    lemma_below_quotient(mb * ts, rb, sb, s);
    if (s + 1) * ra > ma * ts {
        lemma_above_quotient(ma * ts, ra, sa, s + 1);
    } else {
        lemma_above_quotient(mb * ts, rb, sb, s + 1);
    }
    assert(s == if sa <= sb { sa } else { sb });
    lemma_ceil_cost_within_budget(s, ma, ra, ts);
    lemma_ceil_cost_within_budget(s, mb, rb, ts);
}

/// `q` is the quotient of `x` by `d` rounded down; if `x < bound * d` it is
/// below `bound`.
proof fn lemma_quotient_is_unique(x: int, d: int, q: int, bound: int)
    requires
        x >= 0,
        d > 0,
        q == x / d,
        x < bound * d,
    ensures
        q < bound,
{
    lemma_floor_div_bounds(x, d);
    if q >= bound {
        assert(q * d >= bound * d) by (nonlinear_arith)
            requires
                q >= bound,
                d > 0,
        ;
    }
}

/// Whatever `k` with `k * d <= x` is at most the rounded-down quotient.
proof fn lemma_below_quotient(x: int, d: int, q: int, k: int)
    requires
        x >= 0,
        d > 0,
        q == x / d,
        k * d <= x,
    ensures
        k <= q,
{
    lemma_floor_div_bounds(x, d);
    if k > q {
        assert(k * d >= (q + 1) * d) by (nonlinear_arith)
            requires
                k >= q + 1,
                d > 0,
        ;
    }
}

/// Whatever `k` with `k * d > x` is above the rounded-down quotient.
proof fn lemma_above_quotient(x: int, d: int, q: int, k: int)
    requires
        x >= 0,
        d > 0,
        q == x / d,
        k * d > x,
    ensures
        k > q,
{
    lemma_floor_div_bounds(x, d);
    if k <= q {
        assert(k * d <= q * d) by (nonlinear_arith)
            requires
                k <= q,
                d > 0,
        ;
    }
}

/// The first deposit into an empty pool takes both maxima whole and mints
/// the square root of their product, rounded down, which is at least
/// [`MINIMUM_LIQUIDITY`].
pub proof fn first_deposit_mints_square_root_of_product(
    ctx: AddLiquidity,
    max_amount_a: u64,
    max_amount_b: u64,
    min_shares: u64,
)
    requires
        ctx.pool.total_shares == 0,
        add_liquidity_outcome(ctx, max_amount_a, max_amount_b, min_shares) is Ok,
    ensures
        ({
            let added = add_liquidity_outcome(
                ctx,
                max_amount_a,
                max_amount_b,
                min_shares,
            )->Ok_0.1;
            &&& added.amount_a == max_amount_a
            &&& added.amount_b == max_amount_b
            &&& added.shares * added.shares <= max_amount_a * max_amount_b
            &&& max_amount_a * max_amount_b < (added.shares + 1) * (added.shares + 1)
            &&& added.shares >= MINIMUM_LIQUIDITY
            &&& added.shares >= min_shares
        }),
{
    let p = (max_amount_a * max_amount_b) as nat;
    assert(max_amount_a * max_amount_b >= 0) by (nonlinear_arith)
        requires
            max_amount_a >= 0,
            max_amount_b >= 0,
    ;
    let s = floor_sqrt(p);
    lemma_floor_sqrt_exists(p);
    lemma_sqrt_of_u64_product_fits(max_amount_a, max_amount_b, s as int);
}

/// The first deposit into an empty pool goes through whenever the caller
/// offers some of both tokens and the square root `s` of the product of
/// the two amounts, rounded down, reaches both [`MINIMUM_LIQUIDITY`] and
/// the caller's minimum (and the position can hold `s` more shares); it
/// then mints exactly `s` shares. Nothing about the size of the product
/// refuses it.
pub proof fn first_deposit_succeeds(
    ctx: AddLiquidity,
    max_amount_a: u64,
    max_amount_b: u64,
    min_shares: u64,
    s: int,
)
    requires
        max_amount_a > 0,
        max_amount_b > 0,
        ctx.pool.total_shares == 0,
        ctx.pool.reserve_a == 0,
        ctx.pool.reserve_b == 0,
        ctx.vault_a.amount == 0,
        ctx.vault_b.amount == 0,
        s >= 0,
        s * s <= max_amount_a * max_amount_b,
        max_amount_a * max_amount_b < (s + 1) * (s + 1),
        s >= MINIMUM_LIQUIDITY,
        s >= min_shares,
        ctx.position.shares + s <= u64::MAX,
    ensures
        add_liquidity_outcome(ctx, max_amount_a, max_amount_b, min_shares) is Ok,
        add_liquidity_outcome(ctx, max_amount_a, max_amount_b, min_shares)->Ok_0.1.shares == s,
        add_liquidity_outcome(ctx, max_amount_a, max_amount_b, min_shares)->Ok_0.1.amount_a
            == max_amount_a,
        add_liquidity_outcome(ctx, max_amount_a, max_amount_b, min_shares)->Ok_0.1.amount_b
            == max_amount_b,
{
    assert(max_amount_a * max_amount_b >= 0) by (nonlinear_arith)
        requires
            max_amount_a >= 0,
            max_amount_b >= 0,
    ;
    let p = (max_amount_a * max_amount_b) as nat;
    lemma_floor_sqrt_unique(p, s as nat);
    lemma_sqrt_of_u64_product_fits(max_amount_a, max_amount_b, s);
}

/// Every number has a square root rounded down.
pub proof fn lemma_floor_sqrt_exists(n: nat)
    ensures
        is_floor_sqrt(n, floor_sqrt(n)),
    decreases n,
{
    if n == 0 {
        assert((0 as nat) * (0 as nat) == 0 && (0 as nat + 1) * (0 as nat + 1) == 1) by (nonlinear_arith);
        assert(is_floor_sqrt(0, 0));
    } else {
        lemma_floor_sqrt_exists((n - 1) as nat);
        let r = floor_sqrt((n - 1) as nat);
        if (r + 1) * (r + 1) <= n {
            assert((r + 1) * (r + 1) == n) by (nonlinear_arith)
                requires
                    (r + 1) * (r + 1) <= n,
                    n - 1 < (r + 1) * (r + 1),
            ;
            assert(n < (r + 2) * (r + 2)) by (nonlinear_arith)
                requires
                    (r + 1) * (r + 1) == n,
                    r >= 0,
            ;
            assert(is_floor_sqrt(n, (r + 1) as nat));
        } else {
            assert(is_floor_sqrt(n, r));
        }
    }
}

/// A withdrawal pays out of each reserve the part that the burned shares
/// stand for, rounded down: `amount * total_shares <= shares * reserve <
/// (amount + 1) * total_shares`, and burns exactly the shares asked for.
pub proof fn withdrawal_pays_out_in_proportion(
    ctx: RemoveLiquidity,
    shares: u64,
    min_amount_a: u64,
    min_amount_b: u64,
)
    requires
        remove_liquidity_outcome(ctx, shares, min_amount_a, min_amount_b) is Ok,
    ensures
        ({
            let removed = remove_liquidity_outcome(
                ctx,
                shares,
                min_amount_a,
                min_amount_b,
            )->Ok_0.1;
            let ra = ctx.pool.reserve_a as int;
            let rb = ctx.pool.reserve_b as int;
            let ts = ctx.pool.total_shares as int;
            &&& removed.shares == shares
            &&& removed.amount_a * ts <= shares * ra < (removed.amount_a + 1) * ts
            &&& removed.amount_b * ts <= shares * rb < (removed.amount_b + 1) * ts
        }),
{
    let ra = ctx.pool.reserve_a as int;
    let rb = ctx.pool.reserve_b as int;
    let ts = ctx.pool.total_shares as int;
    assert(shares * ra >= 0) by (nonlinear_arith)
        requires
            shares >= 0,
            ra >= 0,
    ;
    assert(shares * rb >= 0) by (nonlinear_arith)
        requires
            shares >= 0,
            rb >= 0,
    ;
    lemma_floor_div_bounds(shares * ra, ts);
    lemma_floor_div_bounds(shares * rb, ts);
}

/// A withdrawal goes through whenever it burns some shares, no more than
/// the position holds nor than exist, the vaults match the reserves, and
/// the proportional payouts `a` and `b` are positive and meet the caller's
/// minimums; it then pays out exactly `a` and `b`. The size of
/// `shares * reserve` plays no part.
pub proof fn withdrawal_succeeds(
    ctx: RemoveLiquidity,
    shares: u64,
    min_amount_a: u64,
    min_amount_b: u64,
    a: int,
    b: int,
)
    requires
        shares > 0,
        ctx.position.shares >= shares,
        ctx.vault_a.amount == ctx.pool.reserve_a,
        ctx.vault_b.amount == ctx.pool.reserve_b,
        shares <= ctx.pool.total_shares,
        a * ctx.pool.total_shares <= shares * ctx.pool.reserve_a < (a + 1) * ctx.pool.total_shares,
        b * ctx.pool.total_shares <= shares * ctx.pool.reserve_b < (b + 1) * ctx.pool.total_shares,
        a > 0,
        b > 0,
        a >= min_amount_a,
        b >= min_amount_b,
    ensures
        remove_liquidity_outcome(ctx, shares, min_amount_a, min_amount_b) is Ok,
        remove_liquidity_outcome(ctx, shares, min_amount_a, min_amount_b)->Ok_0.1.amount_a == a,
        remove_liquidity_outcome(ctx, shares, min_amount_a, min_amount_b)->Ok_0.1.amount_b == b,
{
    let ra = ctx.pool.reserve_a as int;
    let rb = ctx.pool.reserve_b as int;
    let ts = ctx.pool.total_shares as int;
    let sh = shares as int;
    assert(sh * ra >= 0) by (nonlinear_arith)
        requires
            sh >= 0,
            ra >= 0,
    ;
    assert(sh * rb >= 0) by (nonlinear_arith)
        requires
            sh >= 0,
            rb >= 0,
    ;
    lemma_floor_div_bounds(sh * ra, ts);
    lemma_floor_div_bounds(sh * rb, ts);
    lemma_below_quotient(sh * ra, ts, mul_div_floor(sh, ra, ts), a);
    lemma_above_quotient(sh * ra, ts, mul_div_floor(sh, ra, ts), a + 1);
    lemma_below_quotient(sh * rb, ts, mul_div_floor(sh, rb, ts), b);
    lemma_above_quotient(sh * rb, ts, mul_div_floor(sh, rb, ts), b + 1);
    // Burning no more shares than exist pays out no more than the reserve.
    assert(a <= ra) by (nonlinear_arith)
        requires
            a * ts <= sh * ra,
            sh <= ts,
            ts > 0,
            ra >= 0,
    ;
    assert(b <= rb) by (nonlinear_arith)
        requires
            b * ts <= sh * rb,
            sh <= ts,
            ts > 0,
            rb >= 0,
    ;
}

/// A withdrawal that burns no more shares than exist is never refused as
/// an overflow: a payout that fits in a `u64` is never refused because of
/// the size of `shares * reserve`.
pub proof fn withdrawal_overflows_only_beyond_total_shares(
    ctx: RemoveLiquidity,
    shares: u64,
    min_amount_a: u64,
    min_amount_b: u64,
)
    requires
        shares <= ctx.pool.total_shares,
    ensures
        remove_liquidity_outcome(ctx, shares, min_amount_a, min_amount_b) != Err::<
            (RemoveLiquidity, crate::instructions::remove_liquidity::LiquidityRemoved),
            AmmError,
        >(AmmError::MathOverflow),
{
    let ra = ctx.pool.reserve_a as int;
    let rb = ctx.pool.reserve_b as int;
    let ts = ctx.pool.total_shares as int;
    let sh = shares as int;
    if sh <= ts && ts > 0 {
        assert(sh * ra >= 0) by (nonlinear_arith)
            requires
                sh >= 0,
                ra >= 0,
        ;
        assert(sh * rb >= 0) by (nonlinear_arith)
            requires
                sh >= 0,
                rb >= 0,
        ;
        lemma_floor_div_bounds(sh * ra, ts);
        lemma_floor_div_bounds(sh * rb, ts);
        let a = mul_div_floor(sh, ra, ts);
        let b = mul_div_floor(sh, rb, ts);
        assert(a <= ra) by (nonlinear_arith)
            requires
                a * ts <= sh * ra,
                sh <= ts,
                ts > 0,
                ra >= 0,
        ;
        assert(b <= rb) by (nonlinear_arith)
            requires
                b * ts <= sh * rb,
                sh <= ts,
                ts > 0,
                rb >= 0,
        ;
    }
}

/// A successful swap charges as fee the basis points of the input rounded
/// down, puts the rest into the input reserve, and pays out the most that
/// keeps the product of the reserves from decreasing: one token more would
/// lower it. The output meets the caller's minimum.
pub proof fn swap_pays_the_most_that_keeps_k(
    ctx: Swap,
    amount_in: u64,
    min_amount_out: u64,
    a_to_b: bool,
)
    requires
        swap_outcome(ctx, amount_in, min_amount_out, a_to_b) is Ok,
    ensures
        ({
            let outcome = swap_outcome(ctx, amount_in, min_amount_out, a_to_b)->Ok_0.1;
            let reserve_in = if a_to_b {
                ctx.pool.reserve_a
            } else {
                ctx.pool.reserve_b
            };
            let reserve_out = if a_to_b {
                ctx.pool.reserve_b
            } else {
                ctx.pool.reserve_a
            };
            &&& outcome.event.fee * 10_000 <= amount_in * ctx.pool.fee_bps < (outcome.event.fee
                + 1) * 10_000
            &&& outcome.net_input == amount_in - outcome.event.fee
            &&& keeps_k(
                reserve_in as int,
                reserve_out as int,
                outcome.net_input as int,
                outcome.event.amount_out as int,
            )
            &&& !keeps_k(
                reserve_in as int,
                reserve_out as int,
                outcome.net_input as int,
                outcome.event.amount_out + 1,
            )
            &&& outcome.event.amount_out >= min_amount_out
            &&& outcome.event.amount_out > 0
        }),
{
    let reserve_in = if a_to_b {
        ctx.pool.reserve_a
    } else {
        ctx.pool.reserve_b
    };
    let reserve_out = if a_to_b {
        ctx.pool.reserve_b
    } else {
        ctx.pool.reserve_a
    };
    assert(amount_in * ctx.pool.fee_bps >= 0) by (nonlinear_arith)
        requires
            amount_in >= 0,
            ctx.pool.fee_bps >= 0,
    ;
    lemma_floor_div_bounds(amount_in * ctx.pool.fee_bps, 10_000);
    let outcome = swap_outcome(ctx, amount_in, min_amount_out, a_to_b)->Ok_0.1;
    lemma_output_is_most_that_keeps_k(
        reserve_in as int,
        reserve_out as int,
        outcome.net_input as int,
    );
    crate::math::lemma_output_below_reserve(
        reserve_in as int,
        reserve_out as int,
        outcome.net_input as int,
    );
}

/// A swap goes through whenever the input is positive, the vaults match
/// the reserves, the accounts are the right ones, the fee `fee` (the basis
/// points of the input rounded down) leaves some input, both reserves hold
/// tokens, the input reserve can take the rest, and the most `out` that
/// keeps the product of the reserves is positive and meets the caller's
/// minimum; it then charges exactly `fee` and pays out exactly `out`.
pub proof fn swap_succeeds(
    ctx: Swap,
    amount_in: u64,
    min_amount_out: u64,
    a_to_b: bool,
    fee: int,
    out: int,
)
    requires
        amount_in > 0,
        ctx.vault_a.amount == ctx.pool.reserve_a,
        ctx.vault_b.amount == ctx.pool.reserve_b,
        swap_accounts_valid(ctx, a_to_b),
        fee * 10_000 <= amount_in * ctx.pool.fee_bps < (fee + 1) * 10_000,
        fee < amount_in,
        ctx.pool.reserve_a > 0,
        ctx.pool.reserve_b > 0,
        (if a_to_b {
            ctx.pool.reserve_a
        } else {
            ctx.pool.reserve_b
        }) + amount_in - fee <= u64::MAX,
        keeps_k(
            (if a_to_b {
                ctx.pool.reserve_a
            } else {
                ctx.pool.reserve_b
            }) as int,
            (if a_to_b {
                ctx.pool.reserve_b
            } else {
                ctx.pool.reserve_a
            }) as int,
            amount_in - fee,
            out,
        ),
        !keeps_k(
            (if a_to_b {
                ctx.pool.reserve_a
            } else {
                ctx.pool.reserve_b
            }) as int,
            (if a_to_b {
                ctx.pool.reserve_b
            } else {
                ctx.pool.reserve_a
            }) as int,
            amount_in - fee,
            out + 1,
        ),
        out > 0,
        out >= min_amount_out,
    ensures
        swap_outcome(ctx, amount_in, min_amount_out, a_to_b) is Ok,
        swap_outcome(ctx, amount_in, min_amount_out, a_to_b)->Ok_0.1.event.fee == fee,
        swap_outcome(ctx, amount_in, min_amount_out, a_to_b)->Ok_0.1.event.amount_out == out,
{
    let reserve_in = (if a_to_b {
        ctx.pool.reserve_a
    } else {
        ctx.pool.reserve_b
    }) as int;
    let reserve_out = (if a_to_b {
        ctx.pool.reserve_b
    } else {
        ctx.pool.reserve_a
    }) as int;
    let net = amount_in - fee;
    assert(amount_in * ctx.pool.fee_bps >= 0) by (nonlinear_arith)
        requires
            amount_in >= 0,
            ctx.pool.fee_bps >= 0,
    ;
    lemma_floor_div_bounds(amount_in * ctx.pool.fee_bps, 10_000);
    let q = (amount_in * ctx.pool.fee_bps) / 10_000;
    lemma_below_quotient(amount_in * ctx.pool.fee_bps, 10_000, q, fee);
    lemma_above_quotient(amount_in * ctx.pool.fee_bps, 10_000, q, fee + 1);
    assert(reserve_out * net >= 0) by (nonlinear_arith)
        requires
            reserve_out > 0,
            net >= 0,
    ;
    lemma_floor_div_bounds(reserve_out * net, reserve_in + net);
    lemma_keeps_k_iff(reserve_in, reserve_out, net, out);
    lemma_keeps_k_iff(reserve_in, reserve_out, net, out + 1);
    let o = constant_product_output(reserve_in, reserve_out, net);
    lemma_below_quotient(reserve_out * net, reserve_in + net, o, out);
    lemma_above_quotient(reserve_out * net, reserve_in + net, o, out + 1);
    crate::math::lemma_output_below_reserve(reserve_in, reserve_out, net);
}

} // verus!
