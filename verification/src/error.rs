use vstd::prelude::*;

verus! {

/// The reasons for which the pool refuses a request.
#[derive(Debug, Clone, Copy, PartialEq, Eq, Structural)]
pub enum AmmError {
    /// The two pool mints must be different.
    IdenticalMints,
    /// Mint accounts must be supplied in canonical address order.
    InvalidMintOrder,
    /// The protocol fee exceeds the maximum of 10%.
    FeeTooHigh,
    /// The amount must be greater than zero.
    ZeroAmount,
    /// The initial deposit is too small.
    InitialLiquidityTooSmall,
    /// The requested deposit amounts cannot mint any shares.
    DepositTooSmall,
    /// The requested withdrawal cannot return any tokens.
    WithdrawalTooSmall,
    /// The swap output is below the user's minimum.
    SlippageExceeded,
    /// The liquidity output is below the user's minimum.
    MinimumSharesNotMet,
    /// The withdrawal output is below the user's minimum.
    MinimumTokensNotMet,
    /// The position does not contain enough shares.
    InsufficientShares,
    /// The pool has no usable liquidity.
    InsufficientLiquidity,
    /// The fee consumes the full swap input.
    FeeConsumesInput,
    /// A supplied token account has the wrong mint or authority.
    InvalidTokenAccount,
    /// Pool vault balances do not match the recorded reserves.
    ReserveMismatch,
    /// Only the pool authority may perform this action.
    Unauthorized,
    /// Arithmetic overflow or underflow.
    MathOverflow,
}

} // verus!
