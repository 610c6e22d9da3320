use solana_amm::error::AmmError;
use solana_amm::math::{checked_mul_div_ceil, checked_mul_div_floor, integer_sqrt, swap_output};

#[test]
fn square_root_is_integer_floor() {
    assert_eq!(integer_sqrt(0), 0);
    assert_eq!(integer_sqrt(1), 1);
    assert_eq!(integer_sqrt(15), 3);
    assert_eq!(integer_sqrt(16), 4);
    assert_eq!(integer_sqrt(10_000_000_000), 100_000);
}

#[test]
fn cpmm_output_never_drains_reserve() {
    let out = swap_output(1_000_000, 2_000_000, 100_000).unwrap();
    assert_eq!(out, 181_818);
    assert!(out < 2_000_000);
}

#[test]
fn ceil_and_floor_round_as_expected() {
    assert_eq!(checked_mul_div_floor(10, 2, 3).unwrap(), 6);
    assert_eq!(checked_mul_div_ceil(10, 2, 3).unwrap(), 7);
}

#[test]
fn square_root_of_extremes() {
    assert_eq!(integer_sqrt(2), 1);
    assert_eq!(integer_sqrt(3), 1);
    assert_eq!(integer_sqrt(4), 2);
    assert_eq!(integer_sqrt(u128::MAX), u64::MAX);
    assert_eq!(integer_sqrt((u64::MAX as u128) * (u64::MAX as u128)), u64::MAX);
    assert_eq!(integer_sqrt((u64::MAX as u128) * (u64::MAX as u128) - 1), u64::MAX - 1);
    assert_eq!(integer_sqrt(2_000_000_000_000), 1_414_213);
}

#[test]
fn mul_div_refuses_zero_denominator_and_overflow() {
    assert_eq!(checked_mul_div_floor(1, 1, 0), Err(AmmError::MathOverflow));
    assert_eq!(checked_mul_div_ceil(1, 1, 0), Err(AmmError::MathOverflow));
    assert_eq!(checked_mul_div_floor(u64::MAX, 2, 1), Err(AmmError::MathOverflow));
    assert_eq!(checked_mul_div_ceil(u64::MAX, 2, 2), Ok(u64::MAX));
    assert_eq!(checked_mul_div_floor(u64::MAX, u64::MAX, u64::MAX), Ok(u64::MAX));
    assert_eq!(checked_mul_div_ceil(u64::MAX, u64::MAX - 1, u64::MAX), Ok(u64::MAX - 1));
    assert_eq!(checked_mul_div_ceil(9, 2, 3), Ok(6));
}

#[test]
fn swap_output_refuses_empty_reserves_and_overflow() {
    assert_eq!(swap_output(0, 10, 5), Err(AmmError::InsufficientLiquidity));
    assert_eq!(swap_output(10, 0, 5), Err(AmmError::InsufficientLiquidity));
    assert_eq!(swap_output(u64::MAX, 10, 1), Err(AmmError::MathOverflow));
    assert_eq!(swap_output(10, 10, 0), Ok(0));
    assert_eq!(swap_output(1, u64::MAX, u64::MAX - 1), Ok(u64::MAX - 1));
}
