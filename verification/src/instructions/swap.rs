//! Trading one token of the pair for the other along the constant-product
//! curve, after a fee that goes to the treasury.
use vstd::prelude::*;

use crate::constants::BPS_DENOMINATOR;
use crate::error::AmmError;
use crate::instructions::add_liquidity::{assert_reserves, reserves_match};
use crate::laws::{swap_pays_the_most_that_keeps_k, swap_succeeds};
use crate::math::{
    checked_mul_div_floor,
    constant_product_output,
    keeps_k,
    lemma_floor_div_bounds,
    lemma_output_is_most_that_keeps_k,
    mul_div_floor,
    swap_output,
};
use crate::state::{Pool, Pubkey, TokenAccount};

verus! {

/// What a swap reads and writes: the trader, the pool, the trader's
/// accounts for the token paid in and the token paid out, the pool's two
/// vaults and the treasury account that receives the fee.
#[derive(Clone, Copy, Debug)]
pub struct Swap {
    pub user: Pubkey,
    pub pool: Pool,
    pub user_source: TokenAccount,
    pub user_destination: TokenAccount,
    pub vault_a: TokenAccount,
    pub vault_b: TokenAccount,
    pub treasury_input: TokenAccount,
}

/// What a successful swap reports.
#[derive(Clone, Copy, Debug)]
pub struct SwapExecuted {
    pub user: Pubkey,
    pub a_to_b: bool,
    pub amount_in: u64,
    pub fee: u64,
    pub amount_out: u64,
}

/// A successful swap: its report and the part of the input that goes into
/// the pool's vault, the rest (`event.fee`) going to the treasury.
#[derive(Clone, Copy, Debug)]
pub struct SwapOutcome {
    pub event: SwapExecuted,
    pub net_input: u64,
}

/// The trader's accounts hold the right mints and belong to the trader, and
/// the treasury account is the pool's treasury for the input mint.
pub open spec fn swap_accounts_valid(ctx: Swap, a_to_b: bool) -> bool {
    let source_mint = if a_to_b {
        ctx.pool.mint_a
    } else {
        ctx.pool.mint_b
    };
    let destination_mint = if a_to_b {
        ctx.pool.mint_b
    } else {
        ctx.pool.mint_a
    };
    let treasury = if a_to_b {
        ctx.pool.treasury_a
    } else {
        ctx.pool.treasury_b
    };
    &&& ctx.user_source.mint@ == source_mint@
    &&& ctx.user_source.owner@ == ctx.user@
    &&& ctx.user_destination.mint@ == destination_mint@
    &&& ctx.user_destination.owner@ == ctx.user@
    &&& ctx.treasury_input.key@ == treasury@
    &&& ctx.treasury_input.mint@ == source_mint@
    &&& ctx.treasury_input.owner@ == ctx.pool.treasury_authority@
}

/// The fee on a swap input: `fee_bps` basis points of it, rounded down.
pub open spec fn swap_fee(amount_in: u64, fee_bps: u16) -> int {
    mul_div_floor(amount_in as int, fee_bps as int, BPS_DENOMINATOR as int)
}

/// The outcome of a swap: the context afterwards and what it reports, or
/// the refusal.
pub open spec fn swap_outcome(ctx: Swap, amount_in: u64, min_amount_out: u64, a_to_b: bool) -> Result<
    (Swap, SwapOutcome),
    AmmError,
> {
    let pool = ctx.pool;
    let reserve_in = if a_to_b {
        pool.reserve_a
    } else {
        pool.reserve_b
    };
    let reserve_out = if a_to_b {
        pool.reserve_b
    } else {
        pool.reserve_a
    };
    let fee = swap_fee(amount_in, pool.fee_bps);
    let net_input = amount_in - fee;
    let amount_out = constant_product_output(reserve_in as int, reserve_out as int, net_input);
    if amount_in == 0 {
        Err(AmmError::ZeroAmount)
    } else if !reserves_match(pool, ctx.vault_a, ctx.vault_b) {
        Err(AmmError::ReserveMismatch)
    } else if !swap_accounts_valid(ctx, a_to_b) {
        Err(AmmError::InvalidTokenAccount)
    } else if fee > amount_in {
        Err(AmmError::MathOverflow)
    } else if net_input == 0 {
        Err(AmmError::FeeConsumesInput)
    } else if reserve_in == 0 || reserve_out == 0 {
        Err(AmmError::InsufficientLiquidity)
    } else if reserve_in + net_input > u64::MAX {
        Err(AmmError::MathOverflow)
    } else if amount_out == 0 {
        Err(AmmError::InsufficientLiquidity)
    } else if amount_out < min_amount_out {
        Err(AmmError::SlippageExceeded)
    } else {
        let new_in = (reserve_in + net_input) as u64;
        let new_out = (reserve_out - amount_out) as u64;
        let next_pool = if a_to_b {
            Pool { reserve_a: new_in, reserve_b: new_out, ..pool }
        } else {
            Pool { reserve_a: new_out, reserve_b: new_in, ..pool }
        };
        Ok(
            (
                Swap { pool: next_pool, ..ctx },
                SwapOutcome {
                    event: SwapExecuted {
                        user: ctx.user,
                        a_to_b,
                        amount_in,
                        fee: fee as u64,
                        amount_out: amount_out as u64,
                    },
                    net_input: net_input as u64,
                },
            ),
        )
    }
}

/// Paying `net_input` in and the constant-product output out never lowers
/// the product of the reserves.
pub proof fn lemma_swap_keeps_k(reserve_in: int, reserve_out: int, net_input: int)
    requires
        reserve_in > 0,
        reserve_out > 0,
        net_input >= 0,
    ensures
        (reserve_in + net_input) * (reserve_out - constant_product_output(
            reserve_in,
            reserve_out,
            net_input,
        )) >= reserve_in * reserve_out,
{
    let d = reserve_in + net_input;
    let out = constant_product_output(reserve_in, reserve_out, net_input);
    let p = reserve_out * net_input;
    vstd::arithmetic::div_mod::lemma_fundamental_div_mod(p, d);
    vstd::arithmetic::div_mod::lemma_mod_pos_bound(p, d);
    assert(p >= 0) by (nonlinear_arith)
        requires
            p == reserve_out * net_input,
            reserve_out > 0,
            net_input >= 0,
    ;
    assert(d * out <= p);
    assert(d * (reserve_out - out) >= reserve_in * reserve_out) by (nonlinear_arith)
        requires
            d * out <= p,
            p == reserve_out * net_input,
            d == reserve_in + net_input,
    ;
}

/// Swaps `amount_in` of one token for at least `min_amount_out` of the
/// other; `a_to_b` pays in token A.
///
/// The fee, `fee_bps` basis points of the input rounded down, goes to the
/// treasury; the rest enters the input reserve, and the constant-product
/// output leaves the other. On refusal nothing changes. A swap never
/// lowers the product of the reserves, never empties a reserve, leaves the
/// shares as they are, and keeps a well-formed pool well-formed.
pub fn handler(ctx: &mut Swap, amount_in: u64, min_amount_out: u64, a_to_b: bool) -> (r: Result<
    SwapOutcome,
    AmmError,
>)
    ensures
        match swap_outcome(*old(ctx), amount_in, min_amount_out, a_to_b) {
            Ok((next, outcome)) => r == Ok::<SwapOutcome, AmmError>(outcome) && *final(ctx) == next,
            Err(e) => r == Err::<SwapOutcome, AmmError>(e) && *final(ctx) == *old(ctx),
        },
        r matches Ok(outcome) ==> {
            &&& a_to_b ==> final(ctx).pool.reserve_a == old(ctx).vault_a.amount + outcome.net_input
                && final(ctx).pool.reserve_b == old(ctx).vault_b.amount - outcome.event.amount_out
            &&& !a_to_b ==> final(ctx).pool.reserve_b == old(ctx).vault_b.amount
                + outcome.net_input && final(ctx).pool.reserve_a == old(ctx).vault_a.amount
                - outcome.event.amount_out
            &&& outcome.event.fee == swap_fee(amount_in, old(ctx).pool.fee_bps)
            &&& outcome.event.fee + outcome.net_input == amount_in
            &&& outcome.net_input > 0
            &&& outcome.event.amount_out >= min_amount_out
            &&& outcome.event.amount_out > 0
            &&& final(ctx).pool.k() >= old(ctx).pool.k()
            &&& final(ctx).pool.reserve_a > 0
            &&& final(ctx).pool.reserve_b > 0
            &&& final(ctx).pool.total_shares == old(ctx).pool.total_shares
        },
        r is Ok && old(ctx).pool.wf() ==> final(ctx).pool.wf(),
        amount_in == 0 ==> r == Err::<SwapOutcome, AmmError>(AmmError::ZeroAmount),
        amount_in > 0 && (old(ctx).vault_a.amount != old(ctx).pool.reserve_a
            || old(ctx).vault_b.amount != old(ctx).pool.reserve_b) ==> r == Err::<
            SwapOutcome,
            AmmError,
        >(AmmError::ReserveMismatch),
        r matches Ok(outcome) ==> {
            let reserve_in = if a_to_b {
                old(ctx).pool.reserve_a
            } else {
                old(ctx).pool.reserve_b
            };
            let reserve_out = if a_to_b {
                old(ctx).pool.reserve_b
            } else {
                old(ctx).pool.reserve_a
            };
            &&& old(ctx).user_source.owner@ == old(ctx).user@
            &&& old(ctx).user_destination.owner@ == old(ctx).user@
            &&& old(ctx).treasury_input.owner@ == old(ctx).pool.treasury_authority@
            &&& a_to_b ==> {
                &&& old(ctx).user_source.mint@ == old(ctx).pool.mint_a@
                &&& old(ctx).user_destination.mint@ == old(ctx).pool.mint_b@
                &&& old(ctx).treasury_input.key@ == old(ctx).pool.treasury_a@
                &&& old(ctx).treasury_input.mint@ == old(ctx).pool.mint_a@
            }
            &&& !a_to_b ==> {
                &&& old(ctx).user_source.mint@ == old(ctx).pool.mint_b@
                &&& old(ctx).user_destination.mint@ == old(ctx).pool.mint_a@
                &&& old(ctx).treasury_input.key@ == old(ctx).pool.treasury_b@
                &&& old(ctx).treasury_input.mint@ == old(ctx).pool.mint_b@
            }
            &&& outcome.event.fee * 10_000 <= amount_in * old(ctx).pool.fee_bps < (
            outcome.event.fee + 1) * 10_000
            &&& keeps_k(
                reserve_in as int,
                reserve_out as int,
                outcome.net_input as int,
                outcome.event.amount_out as int,
            )
            &&& !keeps_k(
                reserve_in as int,
                reserve_out as int,
                outcome.net_input as int,
                outcome.event.amount_out + 1,
            )
        },
        ({
            let reserve_in = if a_to_b {
                old(ctx).pool.reserve_a
            } else {
                old(ctx).pool.reserve_b
            };
            let reserve_out = if a_to_b {
                old(ctx).pool.reserve_b
            } else {
                old(ctx).pool.reserve_a
            };
            let fee = swap_fee(amount_in, old(ctx).pool.fee_bps);
            let out = constant_product_output(
                reserve_in as int,
                reserve_out as int,
                amount_in - fee,
            );
            &&& amount_in > 0
            &&& old(ctx).vault_a.amount == old(ctx).pool.reserve_a
            &&& old(ctx).vault_b.amount == old(ctx).pool.reserve_b
            &&& swap_accounts_valid(*old(ctx), a_to_b)
            &&& fee < amount_in
            &&& reserve_in > 0
            &&& reserve_out > 0
            &&& reserve_in + amount_in - fee <= u64::MAX
            &&& out > 0
            &&& out >= min_amount_out
        }) ==> r is Ok,
{
    proof {
        let c = *old(ctx);
        let reserve_in = if a_to_b {
            c.pool.reserve_a
        } else {
            c.pool.reserve_b
        };
        let reserve_out = if a_to_b {
            c.pool.reserve_b
        } else {
            c.pool.reserve_a
        };
        assert(amount_in * c.pool.fee_bps >= 0) by (nonlinear_arith)
            requires
                amount_in >= 0,
                c.pool.fee_bps >= 0,
        ;
        lemma_floor_div_bounds(amount_in * c.pool.fee_bps, 10_000);
        let fee = swap_fee(amount_in, c.pool.fee_bps);
        if amount_in > 0 && c.vault_a.amount == c.pool.reserve_a && c.vault_b.amount
            == c.pool.reserve_b && swap_accounts_valid(c, a_to_b) && fee < amount_in
            && c.pool.reserve_a > 0 && c.pool.reserve_b > 0 && reserve_in + amount_in - fee
            <= u64::MAX {
            let out = constant_product_output(reserve_in as int, reserve_out as int, amount_in - fee);
            lemma_output_is_most_that_keeps_k(reserve_in as int, reserve_out as int, amount_in - fee);
            if out > 0 && out >= min_amount_out {
                swap_succeeds(c, amount_in, min_amount_out, a_to_b, fee, out);
            }
        }
    }
    if amount_in == 0 {
        return Err(AmmError::ZeroAmount);
    }
    match assert_reserves(&ctx.pool, &ctx.vault_a, &ctx.vault_b) {
        Ok(()) => {},
        Err(e) => {
            return Err(e);
        },
    }
    let (expected_source_mint, expected_destination_mint, expected_treasury, reserve_in, reserve_out) =
        if a_to_b {
        (ctx.pool.mint_a, ctx.pool.mint_b, ctx.pool.treasury_a, ctx.pool.reserve_a, ctx.pool.reserve_b)
    } else {
        (ctx.pool.mint_b, ctx.pool.mint_a, ctx.pool.treasury_b, ctx.pool.reserve_b, ctx.pool.reserve_a)
    };
    let accounts_valid = ctx.user_source.mint.equals(&expected_source_mint)
        && ctx.user_source.owner.equals(&ctx.user) && ctx.user_destination.mint.equals(
        &expected_destination_mint,
    ) && ctx.user_destination.owner.equals(&ctx.user) && ctx.treasury_input.key.equals(
        &expected_treasury,
    ) && ctx.treasury_input.mint.equals(&expected_source_mint) && ctx.treasury_input.owner.equals(
        &ctx.pool.treasury_authority,
    );
    if !accounts_valid {
        return Err(AmmError::InvalidTokenAccount);
    }
    let fee = match checked_mul_div_floor(amount_in, ctx.pool.fee_bps as u64, BPS_DENOMINATOR) {
        Ok(v) => v,
        Err(e) => {
            return Err(e);
        },
    };
    let net_input = match amount_in.checked_sub(fee) {
        Some(v) => v,
        None => {
            return Err(AmmError::MathOverflow);
        },
    };
    if net_input == 0 {
        return Err(AmmError::FeeConsumesInput);
    }
    let amount_out = match swap_output(reserve_in, reserve_out, net_input) {
        Ok(v) => v,
        Err(e) => {
            return Err(e);
        },
    };
    if amount_out == 0 {
        return Err(AmmError::InsufficientLiquidity);
    }
    if amount_out < min_amount_out {
        return Err(AmmError::SlippageExceeded);
    }
    proof {
        lemma_swap_keeps_k(reserve_in as int, reserve_out as int, net_input as int);
    }
    proof {
        swap_pays_the_most_that_keeps_k(*old(ctx), amount_in, min_amount_out, a_to_b);
    }
    let new_in = reserve_in + net_input;
    let new_out = reserve_out - amount_out;
    if a_to_b {
        ctx.pool.reserve_a = new_in;
        ctx.pool.reserve_b = new_out;
    } else {
        ctx.pool.reserve_b = new_in;
        ctx.pool.reserve_a = new_out;
    }
    proof {
        assert(new_out * new_in == new_in * new_out) by (nonlinear_arith);
        assert(reserve_out * reserve_in == reserve_in * reserve_out) by (nonlinear_arith);
    }
    Ok(
        SwapOutcome {
            event: SwapExecuted { user: ctx.user, a_to_b, amount_in, fee, amount_out },
            net_input,
        },
    )
}

} // verus!
