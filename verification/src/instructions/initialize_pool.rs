//! Creating a pool for an ordered pair of mints.
use vstd::prelude::*;

use crate::constants::MAX_FEE_BPS;
use crate::error::AmmError;
use crate::state::{bytes_less, Pool, Pubkey};

verus! {

/// The addresses a new pool is set up with, and the bumps of its own
/// program-derived addresses.
#[derive(Clone, Copy, Debug)]
pub struct InitializePool {
    pub authority: Pubkey,
    pub treasury_authority: Pubkey,
    pub mint_a: Pubkey,
    pub mint_b: Pubkey,
    pub vault_a: Pubkey,
    pub vault_b: Pubkey,
    pub treasury_a: Pubkey,
    pub treasury_b: Pubkey,
    pub pool_bump: u8,
    pub vault_a_bump: u8,
    pub vault_b_bump: u8,
}

/// The empty pool that `ctx` describes, charging `fee_bps`.
pub open spec fn new_pool(ctx: InitializePool, fee_bps: u16) -> Pool {
    Pool {
        authority: ctx.authority,
        treasury_authority: ctx.treasury_authority,
        mint_a: ctx.mint_a,
        mint_b: ctx.mint_b,
        vault_a: ctx.vault_a,
        vault_b: ctx.vault_b,
        treasury_a: ctx.treasury_a,
        treasury_b: ctx.treasury_b,
        reserve_a: 0,
        reserve_b: 0,
        total_shares: 0,
        fee_bps: fee_bps,
        bump: ctx.pool_bump,
        vault_a_bump: ctx.vault_a_bump,
        vault_b_bump: ctx.vault_b_bump,
    }
}

/// Sets up an empty pool.
///
/// Refuses the same mint twice (`IdenticalMints`), mints that are not in
/// increasing byte order (`InvalidMintOrder`) and a fee above
/// [`MAX_FEE_BPS`] (`FeeTooHigh`), in that order of precedence.
pub fn handler(ctx: &InitializePool, fee_bps: u16) -> (r: Result<Pool, AmmError>)
    ensures
        ctx.mint_a@ == ctx.mint_b@ ==> r == Err::<Pool, AmmError>(AmmError::IdenticalMints),
        ctx.mint_a@ != ctx.mint_b@ && !bytes_less(ctx.mint_a@, ctx.mint_b@) ==> r == Err::<
            Pool,
            AmmError,
        >(AmmError::InvalidMintOrder),
        bytes_less(ctx.mint_a@, ctx.mint_b@) && fee_bps > MAX_FEE_BPS ==> r == Err::<
            Pool,
            AmmError,
        >(AmmError::FeeTooHigh),
        bytes_less(ctx.mint_a@, ctx.mint_b@) && fee_bps <= MAX_FEE_BPS ==> r == Ok::<
            Pool,
            AmmError,
        >(new_pool(*ctx, fee_bps)),
        r matches Ok(pool) ==> {
            &&& pool.authority == ctx.authority
            &&& pool.treasury_authority == ctx.treasury_authority
            &&& pool.mint_a == ctx.mint_a
            &&& pool.mint_b == ctx.mint_b
            &&& pool.vault_a == ctx.vault_a
            &&& pool.vault_b == ctx.vault_b
            &&& pool.treasury_a == ctx.treasury_a
            &&& pool.treasury_b == ctx.treasury_b
            &&& pool.reserve_a == 0
            &&& pool.reserve_b == 0
            &&& pool.total_shares == 0
            &&& pool.fee_bps == fee_bps
            &&& pool.bump == ctx.pool_bump
            &&& pool.vault_a_bump == ctx.vault_a_bump
            &&& pool.vault_b_bump == ctx.vault_b_bump
            &&& pool.wf()
        },
        r is Ok <==> (bytes_less(ctx.mint_a@, ctx.mint_b@) && fee_bps <= MAX_FEE_BPS),
{
    if ctx.mint_a.equals(&ctx.mint_b) {
        return Err(AmmError::IdenticalMints);
    }
    if !ctx.mint_a.bytes_less_than(&ctx.mint_b) {
        return Err(AmmError::InvalidMintOrder);
    }
    if fee_bps > MAX_FEE_BPS {
        return Err(AmmError::FeeTooHigh);
    }
    Ok(
        Pool {
            authority: ctx.authority,
            treasury_authority: ctx.treasury_authority,
            mint_a: ctx.mint_a,
            mint_b: ctx.mint_b,
            vault_a: ctx.vault_a,
            vault_b: ctx.vault_b,
            treasury_a: ctx.treasury_a,
            treasury_b: ctx.treasury_b,
            reserve_a: 0,
            reserve_b: 0,
            total_shares: 0,
            fee_bps,
            bump: ctx.pool_bump,
            vault_a_bump: ctx.vault_a_bump,
            vault_b_bump: ctx.vault_b_bump,
        },
    )
}

} // verus!
