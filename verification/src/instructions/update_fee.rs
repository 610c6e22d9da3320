//! Changing a pool's swap fee.
use vstd::prelude::*;

use crate::constants::MAX_FEE_BPS;
use crate::error::AmmError;
use crate::state::{Pool, Pubkey};

verus! {

/// Who asks to change the fee, and of which pool.
#[derive(Clone, Copy, Debug)]
pub struct UpdateFee {
    pub authority: Pubkey,
    pub pool: Pool,
}

/// What a successful fee change reports.
#[derive(Clone, Copy, Debug)]
pub struct FeeUpdated {
    pub authority: Pubkey,
    pub old_fee_bps: u16,
    pub new_fee_bps: u16,
}

/// Sets the pool's fee to `new_fee_bps`.
///
/// Only the pool's authority may do so (`Unauthorized` otherwise), and only
/// up to [`MAX_FEE_BPS`] (`FeeTooHigh`). Nothing but the fee changes, and
/// on refusal nothing at all.
pub fn handler(ctx: &mut UpdateFee, new_fee_bps: u16) -> (r: Result<FeeUpdated, AmmError>)
    ensures
        old(ctx).authority@ != old(ctx).pool.authority@ ==> r == Err::<FeeUpdated, AmmError>(
            AmmError::Unauthorized,
        ) && *final(ctx) == *old(ctx),
        old(ctx).authority@ == old(ctx).pool.authority@ && new_fee_bps > MAX_FEE_BPS ==> r == Err::<
            FeeUpdated,
            AmmError,
        >(AmmError::FeeTooHigh) && *final(ctx) == *old(ctx),
        old(ctx).authority@ == old(ctx).pool.authority@ && new_fee_bps <= MAX_FEE_BPS ==> {
            &&& r == Ok::<FeeUpdated, AmmError>(
                FeeUpdated {
                    authority: old(ctx).authority,
                    old_fee_bps: old(ctx).pool.fee_bps,
                    new_fee_bps,
                },
            )
            &&& *final(ctx) == (UpdateFee {
                pool: Pool { fee_bps: new_fee_bps, ..old(ctx).pool },
                ..*old(ctx)
            })
        },
        old(ctx).pool.wf() ==> final(ctx).pool.wf(),
{
    if !ctx.authority.equals(&ctx.pool.authority) {
        return Err(AmmError::Unauthorized);
    }
    if new_fee_bps > MAX_FEE_BPS {
        return Err(AmmError::FeeTooHigh);
    }
    let old_fee_bps = ctx.pool.fee_bps;
    ctx.pool.fee_bps = new_fee_bps;
    Ok(FeeUpdated { authority: ctx.authority, old_fee_bps, new_fee_bps })
}

} // verus!
