use vstd::prelude::*;

verus! {

/// Fees are expressed in basis points of the swap input.
pub const BPS_DENOMINATOR: u64 = 10_000;

/// The highest fee a pool may charge: 10% of the swap input.
pub const MAX_FEE_BPS: u16 = 1_000;

/// The smallest number of shares the first deposit into a pool must mint.
pub const MINIMUM_LIQUIDITY: u64 = 1_000;

} // verus!
