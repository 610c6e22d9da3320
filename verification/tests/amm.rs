//! The instruction-level scenarios, replayed against the pool's state
//! transitions: each test keeps the token balances of every account, lets
//! the library decide, and moves the tokens a successful instruction asks
//! for, as the on-chain program does.

use solana_amm::constants::MAX_FEE_BPS;
use solana_amm::error::AmmError;
use solana_amm::instructions::add_liquidity::{self, AddLiquidity, LiquidityAdded, OpenPosition};
use solana_amm::instructions::initialize_pool::{self, InitializePool};
use solana_amm::instructions::remove_liquidity::{self, LiquidityRemoved, RemoveLiquidity};
use solana_amm::instructions::swap::{self, Swap, SwapOutcome};
use solana_amm::instructions::update_fee::{self, FeeUpdated, UpdateFee};
use solana_amm::state::{Pool, Position, Pubkey, TokenAccount};

const INITIAL_A: u64 = 1_000_000;
const INITIAL_B: u64 = 2_000_000;
const INITIAL_SHARES: u64 = 1_414_213;

fn key(n: u8) -> Pubkey {
    Pubkey { bytes: [n; 32] }
}

fn payer() -> Pubkey {
    key(10)
}
fn treasury_authority() -> Pubkey {
    key(11)
}
fn trader() -> Pubkey {
    key(12)
}
fn attacker() -> Pubkey {
    key(13)
}
fn mint_a() -> Pubkey {
    key(1)
}
fn mint_b() -> Pubkey {
    key(2)
}
fn pool_key() -> Pubkey {
    key(30)
}

fn initialize_ctx(mint_a: Pubkey, mint_b: Pubkey) -> InitializePool {
    InitializePool {
        authority: payer(),
        treasury_authority: treasury_authority(),
        mint_a,
        mint_b,
        vault_a: key(31),
        vault_b: key(32),
        treasury_a: key(33),
        treasury_b: key(34),
        pool_bump: 255,
        vault_a_bump: 254,
        vault_b_bump: 253,
    }
}

/// A pool, the payer's position in it, and the balance of every token
/// account involved.
struct Fixture {
    pool: Pool,
    position: Position,
    vault_a: u64,
    vault_b: u64,
    treasury_a: u64,
    treasury_b: u64,
    provider_a: u64,
    provider_b: u64,
    trader_a: u64,
    trader_b: u64,
}

impl Fixture {
    fn account(&self, n: u8, mint: Pubkey, owner: Pubkey, amount: u64) -> TokenAccount {
        TokenAccount { key: key(n), mint, owner, amount }
    }

    fn vaults(&self) -> (TokenAccount, TokenAccount) {
        (
            self.account(31, self.pool.mint_a, pool_key(), self.vault_a),
            self.account(32, self.pool.mint_b, pool_key(), self.vault_b),
        )
    }

    fn add_liquidity(
        &mut self,
        max_amount_a: u64,
        max_amount_b: u64,
        min_shares: u64,
    ) -> Result<LiquidityAdded, AmmError> {
        let (vault_a, vault_b) = self.vaults();
        let mut ctx = AddLiquidity {
            owner: payer(),
            pool: self.pool,
            position: self.position,
            vault_a,
            vault_b,
        };
        let event = add_liquidity::handler(&mut ctx, max_amount_a, max_amount_b, min_shares)?;
        self.pool = ctx.pool;
        self.position = ctx.position;
        self.provider_a -= event.amount_a;
        self.vault_a += event.amount_a;
        self.provider_b -= event.amount_b;
        self.vault_b += event.amount_b;
        Ok(event)
    }

    fn swap(&mut self, amount_in: u64, min_amount_out: u64, a_to_b: bool) -> Result<SwapOutcome, AmmError> {
        let (vault_a, vault_b) = self.vaults();
        let trader_a = self.account(42, self.pool.mint_a, trader(), self.trader_a);
        let trader_b = self.account(43, self.pool.mint_b, trader(), self.trader_b);
        let (user_source, user_destination, treasury_input) = if a_to_b {
            (trader_a, trader_b, self.account(33, self.pool.mint_a, treasury_authority(), self.treasury_a))
        } else {
            (trader_b, trader_a, self.account(34, self.pool.mint_b, treasury_authority(), self.treasury_b))
        };
        let mut ctx = Swap {
            user: trader(),
            pool: self.pool,
            user_source,
            user_destination,
            vault_a,
            vault_b,
            treasury_input,
        };
        let outcome = swap::handler(&mut ctx, amount_in, min_amount_out, a_to_b)?;
        self.pool = ctx.pool;
        let fee = outcome.event.fee;
        let out = outcome.event.amount_out;
        if a_to_b {
            self.trader_a -= amount_in;
            self.treasury_a += fee;
            self.vault_a += outcome.net_input;
            self.vault_b -= out;
            self.trader_b += out;
        } else {
            self.trader_b -= amount_in;
            self.treasury_b += fee;
            self.vault_b += outcome.net_input;
            self.vault_a -= out;
            self.trader_a += out;
        }
        Ok(outcome)
    }

    fn remove_liquidity(
        &mut self,
        shares: u64,
        min_amount_a: u64,
        min_amount_b: u64,
    ) -> Result<LiquidityRemoved, AmmError> {
        let (vault_a, vault_b) = self.vaults();
        let mut ctx = RemoveLiquidity {
            owner: payer(),
            pool: self.pool,
            position: self.position,
            vault_a,
            vault_b,
        };
        let event = remove_liquidity::handler(&mut ctx, shares, min_amount_a, min_amount_b)?;
        self.pool = ctx.pool;
        self.position = ctx.position;
        self.vault_a -= event.amount_a;
        self.provider_a += event.amount_a;
        self.vault_b -= event.amount_b;
        self.provider_b += event.amount_b;
        Ok(event)
    }

    fn update_fee(&mut self, authority: Pubkey, new_fee_bps: u16) -> Result<FeeUpdated, AmmError> {
        let mut ctx = UpdateFee { authority, pool: self.pool };
        let event = update_fee::handler(&mut ctx, new_fee_bps)?;
        self.pool = ctx.pool;
        Ok(event)
    }
}

fn new_pool(fee_bps: u16) -> Fixture {
    let pool = initialize_pool::handler(&initialize_ctx(mint_a(), mint_b()), fee_bps).unwrap();
    let position = add_liquidity::handle_open_position(&OpenPosition {
        owner: payer(),
        pool: pool_key(),
        position_bump: 252,
    });
    Fixture {
        pool,
        position,
        vault_a: 0,
        vault_b: 0,
        treasury_a: 0,
        treasury_b: 0,
        provider_a: 5_000_000,
        provider_b: 10_000_000,
        trader_a: 1_000_000,
        trader_b: 1_000_000,
    }
}

fn setup_seeded_pool(fee_bps: u16) -> Fixture {
    let mut fx = new_pool(fee_bps);
    fx.add_liquidity(INITIAL_A, INITIAL_B, INITIAL_SHARES).unwrap();
    fx
}

#[test]
fn complete_cpmm_lifecycle_with_fees_and_security_checks() {
    let mut fx = setup_seeded_pool(30);

    assert_eq!(fx.pool.reserve_a, INITIAL_A);
    assert_eq!(fx.pool.reserve_b, INITIAL_B);
    assert_eq!(fx.pool.total_shares, INITIAL_SHARES);
    assert_eq!(fx.position.shares, INITIAL_SHARES);
    assert_eq!(fx.vault_a, INITIAL_A);
    assert_eq!(fx.vault_b, INITIAL_B);

    let rejected = fx.swap(100_000, 190_000, true);
    assert!(rejected.is_err(), "an impossible minimum output must fail");
    assert_eq!(fx.treasury_a, 0);
    assert_eq!(fx.trader_a, 1_000_000);

    fx.swap(100_000, 181_000, true).unwrap();
    assert_eq!(fx.treasury_a, 300);
    assert_eq!(fx.treasury_b, 0);
    assert_eq!(fx.pool.reserve_a, 1_099_700);
    assert_eq!(fx.pool.reserve_b, 1_818_678);
    assert_eq!(fx.trader_a, 900_000);
    assert_eq!(fx.trader_b, 1_181_322);
    assert!(
        (fx.pool.reserve_a as u128) * (fx.pool.reserve_b as u128)
            >= (INITIAL_A as u128) * (INITIAL_B as u128),
        "the constant-product invariant must never decrease from a swap"
    );

    assert!(
        fx.update_fee(attacker(), 100).is_err(),
        "only the pool authority may update the fee"
    );
    assert_eq!(fx.pool.fee_bps, 30);

    fx.update_fee(payer(), 100).unwrap();
    assert_eq!(fx.pool.fee_bps, 100);

    let before = fx.pool;
    let shares_to_remove = INITIAL_SHARES / 2;
    let expected_a =
        ((shares_to_remove as u128 * before.reserve_a as u128) / before.total_shares as u128) as u64;
    let expected_b =
        ((shares_to_remove as u128 * before.reserve_b as u128) / before.total_shares as u128) as u64;
    fx.remove_liquidity(shares_to_remove, expected_a, expected_b).unwrap();

    assert_eq!(fx.pool.total_shares, INITIAL_SHARES - shares_to_remove);
    assert_eq!(fx.position.shares, INITIAL_SHARES - shares_to_remove);
    assert_eq!(fx.pool.reserve_a, before.reserve_a - expected_a);
    assert_eq!(fx.pool.reserve_b, before.reserve_b - expected_b);
    assert_eq!(fx.vault_a, fx.pool.reserve_a);
    assert_eq!(fx.vault_b, fx.pool.reserve_b);
}

#[test]
fn initialize_pool_validates_mint_identity_and_order() {
    let identical = initialize_pool::handler(&initialize_ctx(mint_a(), mint_a()), 30);
    assert!(identical.is_err(), "identical mints must be rejected");

    let out_of_order = initialize_pool::handler(&initialize_ctx(mint_b(), mint_a()), 30);
    assert!(out_of_order.is_err(), "mints supplied out of canonical order must be rejected");
}

#[test]
fn fee_bps_is_capped_at_initialization_and_at_update() {
    let over_cap_init = initialize_pool::handler(&initialize_ctx(mint_a(), mint_b()), 1_001);
    assert!(over_cap_init.is_err(), "initialize_pool must reject a fee above MAX_FEE_BPS");

    let pool = initialize_pool::handler(&initialize_ctx(mint_a(), mint_b()), 1_000).unwrap();
    let mut ctx = UpdateFee { authority: payer(), pool };
    assert!(
        update_fee::handler(&mut ctx, 1_001).is_err(),
        "update_fee must reject a fee above MAX_FEE_BPS"
    );
    assert_eq!(ctx.pool.fee_bps, 1_000);
    assert_eq!(ctx.pool.fee_bps, MAX_FEE_BPS);
}

#[test]
fn zero_amount_inputs_are_rejected_across_instructions() {
    let mut fx = setup_seeded_pool(30);

    assert!(fx.add_liquidity(0, 0, 0).is_err(), "add_liquidity must reject a zero-amount deposit");
    assert!(fx.swap(0, 0, true).is_err(), "swap must reject a zero amount_in");
    assert!(fx.remove_liquidity(0, 0, 0).is_err(), "remove_liquidity must reject a zero-share withdrawal");

    assert_eq!(fx.pool.reserve_a, INITIAL_A);
    assert_eq!(fx.pool.reserve_b, INITIAL_B);
    assert_eq!(fx.pool.total_shares, INITIAL_SHARES);
}

#[test]
fn swap_b_to_a_direction_credits_treasury_b_and_preserves_invariant() {
    let mut fx = setup_seeded_pool(50);

    let before = fx.pool;
    fx.swap(200_000, 1, false).unwrap();

    let after = fx.pool;
    assert!(fx.treasury_b > 0, "the fee must land in treasury_b");
    assert_eq!(fx.treasury_a, 0);
    assert!(after.reserve_b > before.reserve_b);
    assert!(after.reserve_a < before.reserve_a);
    assert!(
        (after.reserve_a as u128) * (after.reserve_b as u128)
            >= (before.reserve_a as u128) * (before.reserve_b as u128)
    );
}

#[test]
fn treasury_balance_grows_monotonically_across_repeated_swaps() {
    let mut fx = setup_seeded_pool(25);

    let mut previous_treasury_balance = 0u64;
    for _ in 0..3 {
        fx.swap(50_000, 1, true).unwrap();
        let current = fx.treasury_a;
        assert!(
            current > previous_treasury_balance,
            "treasury_a balance must strictly increase after each fee-bearing swap"
        );
        previous_treasury_balance = current;
    }
}

#[test]
fn liquidity_slippage_and_share_limits_are_enforced() {
    let mut fx = setup_seeded_pool(30);

    assert!(
        fx.add_liquidity(1_000, 2_000, 1_000_000).is_err(),
        "add_liquidity must reject a deposit that cannot mint min_shares"
    );
    assert!(
        fx.remove_liquidity(1_000, 1_000_000, 1_000_000).is_err(),
        "remove_liquidity must reject a withdrawal below the caller's minimums"
    );
    assert!(
        fx.remove_liquidity(INITIAL_SHARES + 1, 0, 0).is_err(),
        "remove_liquidity must reject burning more shares than the position holds"
    );

    assert_eq!(fx.pool.total_shares, INITIAL_SHARES);
    assert_eq!(fx.position.shares, INITIAL_SHARES);
}

#[test]
fn each_refusal_names_its_reason() {
    let mut fx = setup_seeded_pool(30);
    assert_eq!(fx.add_liquidity(0, 5, 0).unwrap_err(), AmmError::ZeroAmount);
    assert_eq!(fx.add_liquidity(1_000, 2_000, 1_000_000).unwrap_err(), AmmError::MinimumSharesNotMet);
    assert_eq!(fx.add_liquidity(1, 1, 0).unwrap_err(), AmmError::DepositTooSmall);
    assert_eq!(fx.swap(100_000, 190_000, true).unwrap_err(), AmmError::SlippageExceeded);
    assert_eq!(fx.remove_liquidity(1_000, 1_000_000, 0).unwrap_err(), AmmError::MinimumTokensNotMet);
    assert_eq!(fx.remove_liquidity(INITIAL_SHARES + 1, 0, 0).unwrap_err(), AmmError::InsufficientShares);
    assert_eq!(fx.remove_liquidity(1, 0, 0).unwrap_err(), AmmError::WithdrawalTooSmall);
    assert_eq!(fx.update_fee(attacker(), 10).unwrap_err(), AmmError::Unauthorized);
    assert_eq!(fx.update_fee(payer(), 1_001).unwrap_err(), AmmError::FeeTooHigh);

    // The vaults no longer match the recorded reserves.
    fx.vault_a += 1;
    assert_eq!(fx.swap(10, 0, true).unwrap_err(), AmmError::ReserveMismatch);
    assert_eq!(fx.add_liquidity(10, 10, 0).unwrap_err(), AmmError::ReserveMismatch);
    assert_eq!(fx.remove_liquidity(10, 0, 0).unwrap_err(), AmmError::ReserveMismatch);
    fx.vault_a -= 1;

    // Too small a first deposit.
    let mut empty = new_pool(30);
    assert_eq!(empty.add_liquidity(999, 1_000, 0).unwrap_err(), AmmError::InitialLiquidityTooSmall);
    assert_eq!(empty.swap(10, 0, true).unwrap_err(), AmmError::InsufficientLiquidity);
    assert_eq!(empty.remove_liquidity(1, 0, 0).unwrap_err(), AmmError::InsufficientShares);
}

#[test]
fn swap_refuses_foreign_token_accounts() {
    let fx = setup_seeded_pool(30);
    let (vault_a, vault_b) = fx.vaults();
    let good = Swap {
        user: trader(),
        pool: fx.pool,
        user_source: fx.account(42, mint_a(), trader(), fx.trader_a),
        user_destination: fx.account(43, mint_b(), trader(), fx.trader_b),
        vault_a,
        vault_b,
        treasury_input: fx.account(33, mint_a(), treasury_authority(), 0),
    };
    let mut wrong_treasury = good;
    wrong_treasury.treasury_input = fx.account(34, mint_b(), treasury_authority(), 0);
    assert_eq!(swap::handler(&mut wrong_treasury, 1_000, 0, true).unwrap_err(), AmmError::InvalidTokenAccount);
    let mut foreign_owner = good;
    foreign_owner.user_source.owner = attacker();
    assert_eq!(swap::handler(&mut foreign_owner, 1_000, 0, true).unwrap_err(), AmmError::InvalidTokenAccount);
    let mut wrong_direction = good;
    assert_eq!(swap::handler(&mut wrong_direction, 1_000, 0, false).unwrap_err(), AmmError::InvalidTokenAccount);
    let mut fine = good;
    assert!(swap::handler(&mut fine, 1_000, 0, true).is_ok());
}

#[test]
fn fees_beyond_the_cap_are_refused_by_the_arithmetic() {
    let mut fx = setup_seeded_pool(30);
    // A pool record that no instruction could have produced.
    fx.pool.fee_bps = 10_000;
    assert_eq!(fx.swap(1_000, 0, true).unwrap_err(), AmmError::FeeConsumesInput);
    fx.pool.fee_bps = 20_000;
    assert_eq!(fx.swap(1_000, 0, true).unwrap_err(), AmmError::MathOverflow);
}

#[test]
fn deposits_are_priced_by_the_scarcer_token_and_rounded_up() {
    let mut fx = setup_seeded_pool(30);
    // 1_000 of A pays for 1_414 shares, 10_000 of B for 7_071: A is scarcer.
    let added = fx.add_liquidity(1_000, 10_000, 0).unwrap();
    assert_eq!(added.shares, 1_414);
    // ceil(1_414 * 1_000_000 / 1_414_213) and ceil(1_414 * 2_000_000 / 1_414_213)
    assert_eq!(added.amount_a, 1_000);
    assert_eq!(added.amount_b, 2_000);
    assert_eq!(fx.pool.total_shares, INITIAL_SHARES + 1_414);
    assert_eq!(fx.position.shares, INITIAL_SHARES + 1_414);
    assert_eq!(fx.pool.reserve_a, INITIAL_A + 1_000);
    assert_eq!(fx.pool.reserve_b, INITIAL_B + 2_000);
}

#[test]
fn deposit_then_withdraw_returns_no_more_than_was_paid() {
    let mut fx = setup_seeded_pool(30);
    fx.swap(123_457, 1, true).unwrap();
    let added = fx.add_liquidity(77_777, 99_999, 0).unwrap();
    let removed = fx.remove_liquidity(added.shares, 0, 0).unwrap();
    assert!(removed.amount_a <= added.amount_a);
    assert!(removed.amount_b <= added.amount_b);
}

#[test]
fn withdrawing_every_share_empties_the_pool() {
    let mut fx = setup_seeded_pool(30);
    fx.swap(10_000, 1, false).unwrap();
    let reserve_a = fx.pool.reserve_a;
    let reserve_b = fx.pool.reserve_b;
    let removed = fx.remove_liquidity(INITIAL_SHARES, 0, 0).unwrap();
    assert_eq!(removed.amount_a, reserve_a);
    assert_eq!(removed.amount_b, reserve_b);
    assert_eq!(fx.pool.reserve_a, 0);
    assert_eq!(fx.pool.reserve_b, 0);
    assert_eq!(fx.pool.total_shares, 0);
    assert_eq!(fx.vault_a, 0);
    assert_eq!(fx.vault_b, 0);
}

#[test]
fn swap_moves_fee_net_input_and_output() {
    let mut fx = setup_seeded_pool(30);
    let outcome = fx.swap(100_000, 0, true).unwrap();
    assert_eq!(outcome.event.fee, 300);
    assert_eq!(outcome.net_input, 99_700);
    assert_eq!(outcome.event.amount_out, 181_322);
    assert_eq!(outcome.event.amount_in, 100_000);
    assert!(outcome.event.a_to_b);
    assert_eq!(fx.pool.total_shares, INITIAL_SHARES);
}

#[test]
fn an_update_reports_old_and_new_fee() {
    let mut fx = setup_seeded_pool(30);
    let event = fx.update_fee(payer(), 1_000).unwrap();
    assert_eq!(event.old_fee_bps, 30);
    assert_eq!(event.new_fee_bps, 1_000);
    assert_eq!(event.authority.bytes, payer().bytes);
}

#[test]
fn new_pool_records_its_accounts_and_starts_empty() {
    let pool = initialize_pool::handler(&initialize_ctx(mint_a(), mint_b()), 30).unwrap();
    assert_eq!(pool.mint_a.bytes, mint_a().bytes);
    assert_eq!(pool.mint_b.bytes, mint_b().bytes);
    assert_eq!(pool.treasury_a.bytes, key(33).bytes);
    assert_eq!(pool.vault_b.bytes, key(32).bytes);
    assert_eq!(pool.authority.bytes, payer().bytes);
    assert_eq!(pool.bump, 255);
    assert_eq!((pool.reserve_a, pool.reserve_b, pool.total_shares), (0, 0, 0));
    // Order is decided by the first differing byte.
    let mut low = [7u8; 32];
    let mut high = [7u8; 32];
    low[31] = 1;
    high[31] = 2;
    high[0] = 6;
    assert_eq!(
        initialize_pool::handler(&initialize_ctx(Pubkey { bytes: low }, Pubkey { bytes: high }), 30)
            .unwrap_err(),
        AmmError::InvalidMintOrder
    );
    assert!(initialize_pool::handler(&initialize_ctx(Pubkey { bytes: high }, Pubkey { bytes: low }), 30).is_ok());
    assert_eq!(
        initialize_pool::handler(&initialize_ctx(mint_a(), mint_a()), 30).unwrap_err(),
        AmmError::IdenticalMints
    );
}
