//! One module per instruction of the pool.
pub mod add_liquidity;
pub mod initialize_pool;
pub mod remove_liquidity;
pub mod swap;
pub mod update_fee;
