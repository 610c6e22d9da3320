//! A constant-product automated market maker for a pair of tokens.
//!
//! The pool holds two reserves, mints liquidity shares against deposits,
//! swaps one token for the other along the curve `x * y = k` after taking a
//! fee for a treasury, and lets liquidity providers burn their shares for a
//! proportional slice of both reserves.
//!
//! Every instruction is a verified state transition over plain values: it
//! reads the pool, the caller's position and the balances of the token
//! accounts involved, decides, and either rejects the request with an
//! [`error::AmmError`] (leaving every value as it was) or returns the new
//! state together with the amounts that have to be moved between accounts.
pub mod constants;
pub mod error;
pub mod instructions;
pub mod laws;
pub mod math;
pub mod state;
