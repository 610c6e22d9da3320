//! Opening a position and depositing both tokens into the pool for shares.
use vstd::arithmetic::div_mod::*;
use vstd::prelude::*;

use crate::constants::MINIMUM_LIQUIDITY;
use crate::error::AmmError;
use crate::math::{
    checked_mul_div_ceil,
    checked_mul_div_floor,
    floor_sqrt,
    integer_sqrt,
    lemma_u64_product_fits_u128,
    mul_div_ceil,
    mul_div_floor,
};
use crate::laws::{
    deposit_into_funded_pool_succeeds,
    deposit_mints_every_affordable_share,
    first_deposit_mints_square_root_of_product,
    first_deposit_succeeds,
    lemma_floor_sqrt_exists,
};
use crate::state::{Pool, Position, Pubkey, TokenAccount};

verus! {

/// Who opens a position in which pool.
#[derive(Clone, Copy, Debug)]
pub struct OpenPosition {
    pub owner: Pubkey,
    /// The address of the pool account.
    pub pool: Pubkey,
    pub position_bump: u8,
}

/// A fresh position that holds no shares.
pub fn handle_open_position(ctx: &OpenPosition) -> (position: Position)
    ensures
        position == (Position {
            pool: ctx.pool,
            owner: ctx.owner,
            shares: 0,
            bump: ctx.position_bump,
        }),
{
    Position { pool: ctx.pool, owner: ctx.owner, shares: 0, bump: ctx.position_bump }
}

/// What a deposit reads and writes: the depositor, the pool, the
/// depositor's position in it and the pool's two vaults.
#[derive(Clone, Copy, Debug)]
pub struct AddLiquidity {
    pub owner: Pubkey,
    pub pool: Pool,
    pub position: Position,
    pub vault_a: TokenAccount,
    pub vault_b: TokenAccount,
}

/// What a successful deposit reports: the tokens taken from the depositor
/// and the shares minted for them.
#[derive(Clone, Copy, Debug)]
pub struct LiquidityAdded {
    pub provider: Pubkey,
    pub amount_a: u64,
    pub amount_b: u64,
    pub shares: u64,
}

/// The vaults hold exactly the reserves the pool has recorded.
pub open spec fn reserves_match(pool: Pool, vault_a: TokenAccount, vault_b: TokenAccount) -> bool {
    vault_a.amount == pool.reserve_a && vault_b.amount == pool.reserve_b
}

/// Refuses with `ReserveMismatch` unless the vault balances equal the
/// recorded reserves.
pub fn assert_reserves(pool: &Pool, vault_a: &TokenAccount, vault_b: &TokenAccount) -> (r: Result<
    (),
    AmmError,
>)
    ensures
        r is Ok <==> reserves_match(*pool, *vault_a, *vault_b),
        r is Err ==> r == Err::<(), AmmError>(AmmError::ReserveMismatch),
{
    if !(vault_a.amount == pool.reserve_a && vault_b.amount == pool.reserve_b) {
        return Err(AmmError::ReserveMismatch);
    }
    Ok(())
}

/// The tokens a deposit of at most `max_amount_a` and `max_amount_b` takes,
/// and the shares it mints, as `(amount_a, amount_b, shares)`.
///
/// Into an empty pool both maxima go in whole, for the square root of their
/// product in shares, which must reach [`MINIMUM_LIQUIDITY`]. Otherwise the
/// deposit mints the shares that the scarcer of the two tokens pays for,
/// rounded down, and takes of each token the share of its reserve that
/// those shares stand for, rounded up.
pub open spec fn deposit_terms(pool: Pool, max_amount_a: u64, max_amount_b: u64) -> Result<
    (u64, u64, u64),
    AmmError,
> {
    if pool.total_shares == 0 {
        let shares = floor_sqrt((max_amount_a * max_amount_b) as nat);
        if shares < MINIMUM_LIQUIDITY {
            Err(AmmError::InitialLiquidityTooSmall)
        } else {
            Ok((max_amount_a, max_amount_b, shares as u64))
        }
    } else if pool.reserve_a == 0 || pool.reserve_b == 0 {
        Err(AmmError::ReserveMismatch)
    } else {
        let shares_a = mul_div_floor(max_amount_a as int, pool.total_shares as int, pool.reserve_a as int);
        let shares_b = mul_div_floor(max_amount_b as int, pool.total_shares as int, pool.reserve_b as int);
        if shares_a > u64::MAX || shares_b > u64::MAX {
            Err(AmmError::MathOverflow)
        } else {
            let shares = if shares_a <= shares_b {
                shares_a
            } else {
                shares_b
            };
            if shares == 0 {
                Err(AmmError::DepositTooSmall)
            } else {
                Ok(
                    (
                        mul_div_ceil(shares, pool.reserve_a as int, pool.total_shares as int) as u64,
                        mul_div_ceil(shares, pool.reserve_b as int, pool.total_shares as int) as u64,
                        shares as u64,
                    ),
                )
            }
        }
    }
}

/// The outcome of a deposit: the context afterwards and the report, or the
/// refusal.
pub open spec fn add_liquidity_outcome(
    ctx: AddLiquidity,
    max_amount_a: u64,
    max_amount_b: u64,
    min_shares: u64,
) -> Result<(AddLiquidity, LiquidityAdded), AmmError> {
    if max_amount_a == 0 || max_amount_b == 0 {
        Err(AmmError::ZeroAmount)
    } else if !reserves_match(ctx.pool, ctx.vault_a, ctx.vault_b) {
        Err(AmmError::ReserveMismatch)
    } else {
        match deposit_terms(ctx.pool, max_amount_a, max_amount_b) {
            Err(e) => Err(e),
            Ok((amount_a, amount_b, shares)) => {
                if shares < min_shares {
                    Err(AmmError::MinimumSharesNotMet)
                } else if ctx.pool.reserve_a + amount_a > u64::MAX || ctx.pool.reserve_b + amount_b
                    > u64::MAX || ctx.pool.total_shares + shares > u64::MAX || ctx.position.shares
                    + shares > u64::MAX {
                    Err(AmmError::MathOverflow)
                } else {
                    Ok(
                        (
                            AddLiquidity {
                                pool: Pool {
                                    reserve_a: (ctx.pool.reserve_a + amount_a) as u64,
                                    reserve_b: (ctx.pool.reserve_b + amount_b) as u64,
                                    total_shares: (ctx.pool.total_shares + shares) as u64,
                                    ..ctx.pool
                                },
                                position: Position {
                                    shares: (ctx.position.shares + shares) as u64,
                                    ..ctx.position
                                },
                                ..ctx
                            },
                            LiquidityAdded { provider: ctx.owner, amount_a, amount_b, shares },
                        ),
                    )
                }
            },
        }
    }
}

/// Paying `ceil(s * r / t)` for `s` shares never costs more than `m` when
/// `s` is at most the shares `m` pays for, `floor(m * t / r)`.
pub proof fn lemma_ceil_cost_within_budget(s: int, m: int, r: int, t: int)
    requires
        r > 0,
        t > 0,
        m >= 0,
        0 <= s <= mul_div_floor(m, t, r),
    ensures
        0 <= mul_div_ceil(s, r, t) <= m,
{
    let q = (m * t) / r;
    lemma_fundamental_div_mod(m * t, r);
    lemma_mod_pos_bound(m * t, r);
    assert(m * t >= 0) by (nonlinear_arith)
        requires
            m >= 0,
            t > 0,
    ;
    assert(s * r <= m * t) by (nonlinear_arith)
        requires
            s <= q,
            r > 0,
            m * t == r * q + (m * t) % r,
            (m * t) % r >= 0,
    ;
    assert(s * r >= 0) by (nonlinear_arith)
        requires
            s >= 0,
            r > 0,
    ;
    lemma_div_pos_is_pos(s * r + t - 1, t);
    lemma_div_is_ordered(s * r + t - 1, m * t + t - 1, t);
    assert(m * t + t - 1 == t * m + (t - 1)) by (nonlinear_arith);
    lemma_fundamental_div_mod_converse_div(m * t + t - 1, t, m, t - 1);
}

/// Rounding up never charges less than the exact price: `ceil(x / t) * t >= x`.
pub proof fn lemma_ceil_covers(s: int, r: int, t: int)
    requires
        s >= 0,
        r >= 0,
        t > 0,
    ensures
        mul_div_ceil(s, r, t) * t >= s * r,
{
    let x = s * r + t - 1;
    assert(s * r >= 0) by (nonlinear_arith)
        requires
            s >= 0,
            r >= 0,
    ;
    lemma_fundamental_div_mod(x, t);
    lemma_mod_pos_bound(x, t);
    assert((x / t) * t == t * (x / t)) by (nonlinear_arith);
}

/// Deposits `max_amount_a` and `max_amount_b` at most, for at least
/// `min_shares` shares.
///
/// On success the pool's reserves grow by the tokens taken, its shares and
/// the position's by the shares minted, and the report names what the
/// caller has to move into the vaults. On refusal nothing changes.
/// A deposit into a pool that already has shares never lowers what each
/// share is worth in either token, and a well-formed pool stays
/// well-formed.
pub fn handler(ctx: &mut AddLiquidity, max_amount_a: u64, max_amount_b: u64, min_shares: u64) -> (r:
    Result<LiquidityAdded, AmmError>)
    ensures
        match add_liquidity_outcome(*old(ctx), max_amount_a, max_amount_b, min_shares) {
            Ok((next, event)) => r == Ok::<LiquidityAdded, AmmError>(event) && *final(ctx) == next,
            Err(e) => r == Err::<LiquidityAdded, AmmError>(e) && *final(ctx) == *old(ctx),
        },
        r matches Ok(event) ==> {
            &&& final(ctx).pool.reserve_a == old(ctx).vault_a.amount + event.amount_a
            &&& final(ctx).pool.reserve_b == old(ctx).vault_b.amount + event.amount_b
            &&& final(ctx).pool.total_shares == old(ctx).pool.total_shares + event.shares
            &&& final(ctx).position.shares == old(ctx).position.shares + event.shares
            &&& event.shares >= min_shares
            &&& event.amount_a <= max_amount_a
            &&& event.amount_b <= max_amount_b
        },
        r is Ok && old(ctx).pool.wf() ==> final(ctx).pool.wf(),
        max_amount_a == 0 || max_amount_b == 0 ==> r == Err::<LiquidityAdded, AmmError>(
            AmmError::ZeroAmount,
        ),
        max_amount_a > 0 && max_amount_b > 0 && (old(ctx).vault_a.amount != old(ctx).pool.reserve_a
            || old(ctx).vault_b.amount != old(ctx).pool.reserve_b) ==> r == Err::<
            LiquidityAdded,
            AmmError,
        >(AmmError::ReserveMismatch),
        r is Ok && old(ctx).pool.total_shares > 0 ==> {
            &&& final(ctx).pool.reserve_a * old(ctx).pool.total_shares >= old(ctx).pool.reserve_a
                * final(ctx).pool.total_shares
            &&& final(ctx).pool.reserve_b * old(ctx).pool.total_shares >= old(ctx).pool.reserve_b
                * final(ctx).pool.total_shares
        },
        r matches Ok(event) ==> old(ctx).pool.total_shares > 0 ==> {
            let ra = old(ctx).pool.reserve_a as int;
            let rb = old(ctx).pool.reserve_b as int;
            let ts = old(ctx).pool.total_shares as int;
            &&& event.shares * ra <= max_amount_a * ts
            &&& event.shares * rb <= max_amount_b * ts
            &&& (event.shares + 1) * ra > max_amount_a * ts || (event.shares + 1) * rb
                > max_amount_b * ts
            &&& event.amount_a * ts >= event.shares * ra
            &&& (event.amount_a - 1) * ts < event.shares * ra
            &&& event.amount_b * ts >= event.shares * rb
            &&& (event.amount_b - 1) * ts < event.shares * rb
        },
        r matches Ok(event) ==> old(ctx).pool.total_shares == 0 ==> {
            &&& event.amount_a == max_amount_a
            &&& event.amount_b == max_amount_b
            &&& event.shares * event.shares <= max_amount_a * max_amount_b
            &&& max_amount_a * max_amount_b < (event.shares + 1) * (event.shares + 1)
            &&& event.shares >= MINIMUM_LIQUIDITY
        },
        max_amount_a > 0 && max_amount_b > 0 && old(ctx).pool.total_shares == 0 && old(
            ctx,
        ).pool.reserve_a == 0 && old(ctx).pool.reserve_b == 0 && old(ctx).vault_a.amount == 0
            && old(ctx).vault_b.amount == 0 && floor_sqrt((max_amount_a * max_amount_b) as nat)
            >= MINIMUM_LIQUIDITY && floor_sqrt((max_amount_a * max_amount_b) as nat) >= min_shares
            && old(ctx).position.shares + floor_sqrt((max_amount_a * max_amount_b) as nat)
            <= u64::MAX ==> (r matches Ok(event) && event.shares == floor_sqrt(
            (max_amount_a * max_amount_b) as nat,
        )),
        ({
            let ra = old(ctx).pool.reserve_a as int;
            let rb = old(ctx).pool.reserve_b as int;
            let ts = old(ctx).pool.total_shares as int;
            let shares_a = mul_div_floor(max_amount_a as int, ts, ra);
            let shares_b = mul_div_floor(max_amount_b as int, ts, rb);
            let shares = if shares_a <= shares_b {
                shares_a
            } else {
                shares_b
            };
            &&& max_amount_a > 0
            &&& max_amount_b > 0
            &&& old(ctx).vault_a.amount == ra
            &&& old(ctx).vault_b.amount == rb
            &&& ts > 0
            &&& ra > 0
            &&& rb > 0
            &&& shares_a <= u64::MAX
            &&& shares_b <= u64::MAX
            &&& shares > 0
            &&& shares >= min_shares
            &&& ra + max_amount_a <= u64::MAX
            &&& rb + max_amount_b <= u64::MAX
            &&& ts + shares <= u64::MAX
            &&& old(ctx).position.shares + shares <= u64::MAX
        }) ==> r is Ok,
{
    proof {
        let c = *old(ctx);
        let ra = c.pool.reserve_a as int;
        let rb = c.pool.reserve_b as int;
        let ts = c.pool.total_shares as int;
        if ts > 0 && ra > 0 && rb > 0 {
            let ma = max_amount_a as int;
            let mb = max_amount_b as int;
            assert(ma * ts >= 0) by (nonlinear_arith)
                requires
                    ma >= 0,
                    ts > 0,
            ;
            assert(mb * ts >= 0) by (nonlinear_arith)
                requires
                    mb >= 0,
                    ts > 0,
            ;
            crate::math::lemma_floor_div_bounds(ma * ts, ra);
            crate::math::lemma_floor_div_bounds(mb * ts, rb);
            let sa = mul_div_floor(ma, ts, ra);
            let sb = mul_div_floor(mb, ts, rb);
            let sh = if sa <= sb {
                sa
            } else {
                sb
            };
            if max_amount_a > 0 && max_amount_b > 0 && c.vault_a.amount == ra && c.vault_b.amount
                == rb && sa <= u64::MAX && sb <= u64::MAX && sh > 0 && sh >= min_shares && ra
                + ma <= u64::MAX && rb + mb <= u64::MAX && ts + sh <= u64::MAX && c.position.shares
                + sh <= u64::MAX {
                assert(ma * ts < (u64::MAX + 1) * ra) by (nonlinear_arith)
                    requires
                        ma * ts < (sa + 1) * ra,
                        sa <= u64::MAX,
                        ra > 0,
                ;
                assert(mb * ts < (u64::MAX + 1) * rb) by (nonlinear_arith)
                    requires
                        mb * ts < (sb + 1) * rb,
                        sb <= u64::MAX,
                        rb > 0,
                ;
                assert(sh * ra <= ma * ts) by (nonlinear_arith)
                    requires
                        sh <= sa,
                        sa * ra <= ma * ts,
                        ra > 0,
                ;
                assert(sh * rb <= mb * ts) by (nonlinear_arith)
                    requires
                        sh <= sb,
                        sb * rb <= mb * ts,
                        rb > 0,
                ;
                deposit_into_funded_pool_succeeds(c, max_amount_a, max_amount_b, min_shares, sh);
            }
        }
    }
    proof {
        let c = *old(ctx);
        assert(max_amount_a * max_amount_b >= 0) by (nonlinear_arith)
            requires
                max_amount_a >= 0,
                max_amount_b >= 0,
        ;
        let p = (max_amount_a * max_amount_b) as nat;
        lemma_floor_sqrt_exists(p);
        let s = floor_sqrt(p) as int;
        if max_amount_a > 0 && max_amount_b > 0 && c.pool.total_shares == 0 && c.pool.reserve_a
            == 0 && c.pool.reserve_b == 0 && c.vault_a.amount == 0 && c.vault_b.amount == 0 && s
            >= MINIMUM_LIQUIDITY && s >= min_shares && c.position.shares + s <= u64::MAX {
            first_deposit_succeeds(c, max_amount_a, max_amount_b, min_shares, s);
        }
    }
    if !(max_amount_a > 0 && max_amount_b > 0) {
        return Err(AmmError::ZeroAmount);
    }
    match assert_reserves(&ctx.pool, &ctx.vault_a, &ctx.vault_b) {
        Ok(()) => {},
        Err(e) => {
            return Err(e);
        },
    }
    let reserve_a = ctx.pool.reserve_a;
    let reserve_b = ctx.pool.reserve_b;
    let total_shares = ctx.pool.total_shares;
    let ghost terms = deposit_terms(ctx.pool, max_amount_a, max_amount_b);
    let (amount_a, amount_b, shares) = if total_shares == 0 {
        proof {
            lemma_u64_product_fits_u128(max_amount_a, max_amount_b, 0);
        }
        let product: u128 = (max_amount_a as u128) * (max_amount_b as u128);
        let shares = integer_sqrt(product);
        if shares < MINIMUM_LIQUIDITY {
            return Err(AmmError::InitialLiquidityTooSmall);
        }
        (max_amount_a, max_amount_b, shares)
    } else {
        if !(reserve_a > 0 && reserve_b > 0) {
            return Err(AmmError::ReserveMismatch);
        }
        let shares_a = match checked_mul_div_floor(max_amount_a, total_shares, reserve_a) {
            Ok(v) => v,
            Err(e) => {
                return Err(e);
            },
        };
        let shares_b = match checked_mul_div_floor(max_amount_b, total_shares, reserve_b) {
            Ok(v) => v,
            Err(e) => {
                return Err(e);
            },
        };
        let shares = if shares_a <= shares_b {
            shares_a
        } else {
            shares_b
        };
        if shares == 0 {
            return Err(AmmError::DepositTooSmall);
        }
        proof {
            lemma_ceil_cost_within_budget(
                shares as int,
                max_amount_a as int,
                reserve_a as int,
                total_shares as int,
            );
            lemma_ceil_cost_within_budget(
                shares as int,
                max_amount_b as int,
                reserve_b as int,
                total_shares as int,
            );
        }
        let amount_a = match checked_mul_div_ceil(shares, reserve_a, total_shares) {
            Ok(v) => v,
            Err(e) => {
                return Err(e);
            },
        };
        let amount_b = match checked_mul_div_ceil(shares, reserve_b, total_shares) {
            Ok(v) => v,
            Err(e) => {
                return Err(e);
            },
        };
        if !(amount_a <= max_amount_a && amount_b <= max_amount_b) {
            return Err(AmmError::MathOverflow);
        }
        proof {
            lemma_ceil_covers(shares as int, reserve_a as int, total_shares as int);
            lemma_ceil_covers(shares as int, reserve_b as int, total_shares as int);
        }
        (amount_a, amount_b, shares)
    };
    assert(terms == Ok::<(u64, u64, u64), AmmError>((amount_a, amount_b, shares)));
    if shares < min_shares {
        return Err(AmmError::MinimumSharesNotMet);
    }
    let new_reserve_a = match reserve_a.checked_add(amount_a) {
        Some(v) => v,
        None => {
            return Err(AmmError::MathOverflow);
        },
    };
    let new_reserve_b = match reserve_b.checked_add(amount_b) {
        Some(v) => v,
        None => {
            return Err(AmmError::MathOverflow);
        },
    };
    let new_total_shares = match total_shares.checked_add(shares) {
        Some(v) => v,
        None => {
            return Err(AmmError::MathOverflow);
        },
    };
    let new_position_shares = match ctx.position.shares.checked_add(shares) {
        Some(v) => v,
        None => {
            return Err(AmmError::MathOverflow);
        },
    };
    proof {
        if total_shares > 0 {
            assert(new_reserve_a * total_shares >= reserve_a * new_total_shares) by (nonlinear_arith)
                requires
                    new_reserve_a == reserve_a + amount_a,
                    new_total_shares == total_shares + shares,
                    amount_a * total_shares >= shares * reserve_a,
            ;
            assert(new_reserve_b * total_shares >= reserve_b * new_total_shares) by (nonlinear_arith)
                requires
                    new_reserve_b == reserve_b + amount_b,
                    new_total_shares == total_shares + shares,
                    amount_b * total_shares >= shares * reserve_b,
            ;
        }
    }
    proof {
        if total_shares > 0 {
            deposit_mints_every_affordable_share(*old(ctx), max_amount_a, max_amount_b, min_shares);
        } else {
            first_deposit_mints_square_root_of_product(
                *old(ctx),
                max_amount_a,
                max_amount_b,
                min_shares,
            );
        }
    }
    ctx.pool.reserve_a = new_reserve_a;
    ctx.pool.reserve_b = new_reserve_b;
    ctx.pool.total_shares = new_total_shares;
    ctx.position.shares = new_position_shares;
    Ok(LiquidityAdded { provider: ctx.owner, amount_a, amount_b, shares })
}

} // verus!
