//! Burning shares for a proportional part of both reserves.
use vstd::arithmetic::div_mod::*;
use vstd::prelude::*;

use crate::error::AmmError;
use crate::instructions::add_liquidity::{assert_reserves, reserves_match};
use crate::laws::{
    withdrawal_overflows_only_beyond_total_shares,
    withdrawal_pays_out_in_proportion,
    withdrawal_succeeds,
};
use crate::math::{checked_mul_div_floor, lemma_floor_div_bounds, mul_div_floor};
use crate::state::{Pool, Position, Pubkey, TokenAccount};

verus! {

/// What a withdrawal reads and writes: the share owner, the pool, the
/// owner's position in it and the pool's two vaults.
#[derive(Clone, Copy, Debug)]
pub struct RemoveLiquidity {
    pub owner: Pubkey,
    pub pool: Pool,
    pub position: Position,
    pub vault_a: TokenAccount,
    pub vault_b: TokenAccount,
}

/// What a successful withdrawal reports: the shares burned and the tokens
/// paid out for them.
#[derive(Clone, Copy, Debug)]
pub struct LiquidityRemoved {
    pub provider: Pubkey,
    pub amount_a: u64,
    pub amount_b: u64,
    pub shares: u64,
}

/// The outcome of a withdrawal: the context afterwards and the report, or
/// the refusal. Each token is paid out in proportion to the shares burned,
/// rounded down.
pub open spec fn remove_liquidity_outcome(
    ctx: RemoveLiquidity,
    shares: u64,
    min_amount_a: u64,
    min_amount_b: u64,
) -> Result<(RemoveLiquidity, LiquidityRemoved), AmmError> {
    let pool = ctx.pool;
    let amount_a = mul_div_floor(shares as int, pool.reserve_a as int, pool.total_shares as int);
    let amount_b = mul_div_floor(shares as int, pool.reserve_b as int, pool.total_shares as int);
    if shares == 0 {
        Err(AmmError::ZeroAmount)
    } else if ctx.position.shares < shares {
        Err(AmmError::InsufficientShares)
    } else if !reserves_match(pool, ctx.vault_a, ctx.vault_b) {
        Err(AmmError::ReserveMismatch)
    } else if pool.total_shares == 0 {
        Err(AmmError::InsufficientLiquidity)
    } else if amount_a > u64::MAX || amount_b > u64::MAX {
        Err(AmmError::MathOverflow)
    } else if amount_a == 0 || amount_b == 0 {
        Err(AmmError::WithdrawalTooSmall)
    } else if amount_a < min_amount_a || amount_b < min_amount_b {
        Err(AmmError::MinimumTokensNotMet)
    } else if amount_a > pool.reserve_a || amount_b > pool.reserve_b || shares > pool.total_shares {
        Err(AmmError::MathOverflow)
    } else {
        Ok(
            (
                RemoveLiquidity {
                    pool: Pool {
                        reserve_a: (pool.reserve_a - amount_a) as u64,
                        reserve_b: (pool.reserve_b - amount_b) as u64,
                        total_shares: (pool.total_shares - shares) as u64,
                        ..pool
                    },
                    position: Position {
                        shares: (ctx.position.shares - shares) as u64,
                        ..ctx.position
                    },
                    ..ctx
                },
                LiquidityRemoved {
                    provider: ctx.owner,
                    amount_a: amount_a as u64,
                    amount_b: amount_b as u64,
                    shares,
                },
            ),
        )
    }
}

/// Rounding the payout down: `floor(s * r / t) * t <= s * r`, and burning
/// every share pays out the whole reserve while burning fewer pays out
/// less than all of it.
proof fn lemma_payout_bounds(s: int, r: int, t: int)
    requires
        0 < s <= t,
        r >= 0,
    ensures
        mul_div_floor(s, r, t) * t <= s * r,
        s == t ==> mul_div_floor(s, r, t) == r,
        s < t && r > 0 ==> mul_div_floor(s, r, t) < r,
{
    let a = mul_div_floor(s, r, t);
    assert(s * r >= 0) by (nonlinear_arith)
        requires
            s > 0,
            r >= 0,
    ;
    lemma_fundamental_div_mod(s * r, t);
    lemma_mod_pos_bound(s * r, t);
    assert(a * t == t * a) by (nonlinear_arith);
    if s == t {
        assert(s * r == r * t) by (nonlinear_arith)
            requires
                s == t,
        ;
        lemma_div_by_multiple(r, t);
    }
    if s < t && r > 0 {
        assert(s * r < t * r) by (nonlinear_arith)
            requires
                s < t,
                r > 0,
        ;
        if a >= r {
            assert(a * t >= r * t) by (nonlinear_arith)
                requires
                    a >= r,
                    t > 0,
            ;
        }
    }
}

/// Burns `shares` of the owner's position for at least `min_amount_a` and
/// `min_amount_b` tokens.
///
/// On success both reserves shrink by what is paid out, the pool's and the
/// position's shares by the shares burned, and the report names what the
/// caller has to move out of the vaults. On refusal nothing changes. A
/// withdrawal never lowers what each remaining share is worth in either
/// token, and a well-formed pool stays well-formed.
pub fn handler(ctx: &mut RemoveLiquidity, shares: u64, min_amount_a: u64, min_amount_b: u64) -> (r:
    Result<LiquidityRemoved, AmmError>)
    ensures
        match remove_liquidity_outcome(*old(ctx), shares, min_amount_a, min_amount_b) {
            Ok((next, event)) => r == Ok::<LiquidityRemoved, AmmError>(event) && *final(ctx) == next,
            Err(e) => r == Err::<LiquidityRemoved, AmmError>(e) && *final(ctx) == *old(ctx),
        },
        r matches Ok(event) ==> {
            &&& final(ctx).pool.reserve_a == old(ctx).vault_a.amount - event.amount_a
            &&& final(ctx).pool.reserve_b == old(ctx).vault_b.amount - event.amount_b
            &&& final(ctx).pool.total_shares == old(ctx).pool.total_shares - shares
            &&& final(ctx).position.shares == old(ctx).position.shares - shares
            &&& event.amount_a >= min_amount_a
            &&& event.amount_b >= min_amount_b
            &&& 0 < event.amount_a <= old(ctx).pool.reserve_a
            &&& 0 < event.amount_b <= old(ctx).pool.reserve_b
        },
        r is Ok ==> {
            &&& final(ctx).pool.reserve_a * old(ctx).pool.total_shares >= old(ctx).pool.reserve_a
                * final(ctx).pool.total_shares
            &&& final(ctx).pool.reserve_b * old(ctx).pool.total_shares >= old(ctx).pool.reserve_b
                * final(ctx).pool.total_shares
        },
        r is Ok && old(ctx).pool.wf() ==> final(ctx).pool.wf(),
        shares == 0 ==> r == Err::<LiquidityRemoved, AmmError>(AmmError::ZeroAmount),
        shares > 0 && old(ctx).position.shares < shares ==> r == Err::<LiquidityRemoved, AmmError>(
            AmmError::InsufficientShares,
        ),
        r is Ok ==> old(ctx).vault_a.amount == old(ctx).pool.reserve_a && old(ctx).vault_b.amount
            == old(ctx).pool.reserve_b,
        r matches Ok(event) ==> {
            &&& event.shares == shares
            &&& event.amount_a * old(ctx).pool.total_shares <= shares * old(ctx).pool.reserve_a
                < (event.amount_a + 1) * old(ctx).pool.total_shares
            &&& event.amount_b * old(ctx).pool.total_shares <= shares * old(ctx).pool.reserve_b
                < (event.amount_b + 1) * old(ctx).pool.total_shares
        },
        shares > 0 && old(ctx).position.shares >= shares && old(ctx).vault_a.amount == old(
            ctx,
        ).pool.reserve_a && old(ctx).vault_b.amount == old(ctx).pool.reserve_b && shares <= old(
            ctx,
        ).pool.total_shares && mul_div_floor(
            shares as int,
            old(ctx).pool.reserve_a as int,
            old(ctx).pool.total_shares as int,
        ) > 0 && mul_div_floor(
            shares as int,
            old(ctx).pool.reserve_b as int,
            old(ctx).pool.total_shares as int,
        ) > 0 && mul_div_floor(
            shares as int,
            old(ctx).pool.reserve_a as int,
            old(ctx).pool.total_shares as int,
        ) >= min_amount_a && mul_div_floor(
            shares as int,
            old(ctx).pool.reserve_b as int,
            old(ctx).pool.total_shares as int,
        ) >= min_amount_b ==> r is Ok,
        r == Err::<LiquidityRemoved, AmmError>(AmmError::MathOverflow) ==> shares > old(
            ctx,
        ).pool.total_shares,
{
    proof {
        let c = *old(ctx);
        let ts = c.pool.total_shares as int;
        if shares <= c.pool.total_shares {
            withdrawal_overflows_only_beyond_total_shares(c, shares, min_amount_a, min_amount_b);
        }
        if shares > 0 && c.position.shares >= shares && c.vault_a.amount == c.pool.reserve_a
            && c.vault_b.amount == c.pool.reserve_b && shares <= c.pool.total_shares {
            let a = mul_div_floor(shares as int, c.pool.reserve_a as int, ts);
            let b = mul_div_floor(shares as int, c.pool.reserve_b as int, ts);
            assert(shares * c.pool.reserve_a >= 0) by (nonlinear_arith)
                requires
                    shares >= 0,
                    c.pool.reserve_a >= 0,
            ;
            assert(shares * c.pool.reserve_b >= 0) by (nonlinear_arith)
                requires
                    shares >= 0,
                    c.pool.reserve_b >= 0,
            ;
            lemma_floor_div_bounds(shares * c.pool.reserve_a, ts);
            lemma_floor_div_bounds(shares * c.pool.reserve_b, ts);
            if a > 0 && b > 0 && a >= min_amount_a && b >= min_amount_b {
                withdrawal_succeeds(c, shares, min_amount_a, min_amount_b, a, b);
            }
        }
    }
    if shares == 0 {
        return Err(AmmError::ZeroAmount);
    }
    if !(ctx.position.shares >= shares) {
        return Err(AmmError::InsufficientShares);
    }
    match assert_reserves(&ctx.pool, &ctx.vault_a, &ctx.vault_b) {
        Ok(()) => {},
        Err(e) => {
            return Err(e);
        },
    }
    let reserve_a = ctx.pool.reserve_a;
    let reserve_b = ctx.pool.reserve_b;
    let total_shares = ctx.pool.total_shares;
    if !(total_shares > 0) {
        return Err(AmmError::InsufficientLiquidity);
    }
    let amount_a = match checked_mul_div_floor(shares, reserve_a, total_shares) {
        Ok(v) => v,
        Err(e) => {
            return Err(e);
        },
    };
    let amount_b = match checked_mul_div_floor(shares, reserve_b, total_shares) {
        Ok(v) => v,
        Err(e) => {
            return Err(e);
        },
    };
    if !(amount_a > 0 && amount_b > 0) {
        return Err(AmmError::WithdrawalTooSmall);
    }
    if !(amount_a >= min_amount_a && amount_b >= min_amount_b) {
        return Err(AmmError::MinimumTokensNotMet);
    }
    let new_reserve_a = match reserve_a.checked_sub(amount_a) {
        Some(v) => v,
        None => {
            return Err(AmmError::MathOverflow);
        },
    };
    let new_reserve_b = match reserve_b.checked_sub(amount_b) {
        Some(v) => v,
        None => {
            return Err(AmmError::MathOverflow);
        },
    };
    let new_total_shares = match total_shares.checked_sub(shares) {
        Some(v) => v,
        None => {
            return Err(AmmError::MathOverflow);
        },
    };
    let new_position_shares = match ctx.position.shares.checked_sub(shares) {
        Some(v) => v,
        None => {
            return Err(AmmError::MathOverflow);
        },
    };
    proof {
        lemma_payout_bounds(shares as int, reserve_a as int, total_shares as int);
        lemma_payout_bounds(shares as int, reserve_b as int, total_shares as int);
        assert(new_reserve_a * total_shares >= reserve_a * new_total_shares) by (nonlinear_arith)
            requires
                new_reserve_a == reserve_a - amount_a,
                new_total_shares == total_shares - shares,
                amount_a * total_shares <= shares * reserve_a,
        ;
        assert(new_reserve_b * total_shares >= reserve_b * new_total_shares) by (nonlinear_arith)
            requires
                new_reserve_b == reserve_b - amount_b,
                new_total_shares == total_shares - shares,
                amount_b * total_shares <= shares * reserve_b,
        ;
    }
    proof {
        withdrawal_pays_out_in_proportion(*old(ctx), shares, min_amount_a, min_amount_b);
    }
    ctx.pool.reserve_a = new_reserve_a;
    ctx.pool.reserve_b = new_reserve_b;
    ctx.pool.total_shares = new_total_shares;
    ctx.position.shares = new_position_shares;
    Ok(LiquidityRemoved { provider: ctx.owner, amount_a, amount_b, shares })
}

} // verus!
