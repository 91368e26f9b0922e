use burrowland::asset_config::AssetConfig;
use burrowland::big_decimal::{BigDecimal, LowU128, BIG_DIVISOR};
use burrowland::config::Config;
use burrowland::error::LendingError;
use burrowland::pool::Pool;
use burrowland::price::Price;
use burrowland::utils::{ms_to_nano, nano_to_ms, ratio, u128_ratio};

#[test]
fn test_pool_bootstrap_and_rounding() {
    let mut pool = Pool::new();
    assert_eq!(pool.amount_to_shares(100, false), 100);
    pool.deposit(100, 100);
    // The balance grows by interest: 100 shares stand for 150.
    pool.balance = 150;
    assert_eq!(pool.amount_to_shares(10, false), 6);
    assert_eq!(pool.amount_to_shares(10, true), 7);
    assert_eq!(pool.shares_to_amount(7, false), 10);
    assert_eq!(pool.shares_to_amount(7, true), 11);
    // All shares, or more, stand for the whole balance.
    assert_eq!(pool.shares_to_amount(100, false), 150);
    assert_eq!(pool.shares_to_amount(1000, true), 150);
    assert_eq!(pool.checked_amount_to_shares(u128::MAX, false), Some(u128::MAX / 3 * 2));
}

#[test]
fn test_pool_withdraw() {
    let mut pool = Pool { shares: 10, balance: 20 };
    assert_eq!(pool.withdraw(11, 1), Err(LendingError::InsufficientBalance));
    assert_eq!(pool.withdraw(1, 21), Err(LendingError::InsufficientBalance));
    assert_eq!(pool, Pool { shares: 10, balance: 20 });
    assert_eq!(pool.withdraw(10, 20), Ok(()));
    assert_eq!(pool, Pool { shares: 0, balance: 0 });
}

#[test]
fn test_checked_shares_overflow() {
    let pool = Pool { shares: u128::MAX, balance: 1 };
    assert_eq!(pool.checked_amount_to_shares(2, false), None);
}

#[test]
fn test_ratios_and_time() {
    assert_eq!(ratio(1000, 2500), 250);
    assert_eq!(ratio(7, 5000), 3);
    assert_eq!(u128_ratio(u128::MAX, 3, 4), u128::MAX / 4 * 3 + 2);
    assert_eq!(nano_to_ms(2_999_999), 2);
    assert_eq!(ms_to_nano(3), 3_000_000);
}

#[test]
fn test_rate_curve() {
    let config = AssetConfig {
        reserve_ratio: 2500,
        target_utilization: 8000,
        target_utilization_rate: LowU128(BIG_DIVISOR + 8_000_000_000_000),
        max_utilization_rate: LowU128(BIG_DIVISOR + 28_000_000_000_000),
        volatility_ratio: 6000,
    };
    assert!(config.assert_valid());
    let raw = |b: BigDecimal| LowU128::from_big_decimal(&b).0;
    // Nothing supplied: no interest.
    assert_eq!(raw(config.get_rate(5, 0)), BIG_DIVISOR);
    // 40% utilization: halfway to the target rate.
    assert_eq!(raw(config.get_rate(40, 100)), BIG_DIVISOR + 4_000_000_000_000);
    // At the target.
    assert_eq!(raw(config.get_rate(80, 100)), BIG_DIVISOR + 8_000_000_000_000);
    // 90%: halfway from the target to the maximum.
    assert_eq!(raw(config.get_rate(90, 100)), BIG_DIVISOR + 18_000_000_000_000);
    assert_eq!(raw(config.get_rate(100, 100)), BIG_DIVISOR + 28_000_000_000_000);
    let bad = AssetConfig { target_utilization: 10000, ..config };
    assert!(!bad.assert_valid());
}

#[test]
fn test_decimal_operations() {
    let raw = |b: &BigDecimal| LowU128::from_big_decimal(b).0;
    let half = BigDecimal::from_ratio(5000);
    assert_eq!(raw(&half), BIG_DIVISOR / 2);
    assert_eq!(raw(&BigDecimal::from_u64(3).mul_ratio(2500)), BIG_DIVISOR * 3 / 4);
    assert_eq!(raw(&BigDecimal::from_u32(7).sub(&BigDecimal::from_u32(2))), 5 * BIG_DIVISOR);
    assert_eq!(raw(&BigDecimal::from_u32(7).div_u128(2)), 7 * BIG_DIVISOR / 2);
    assert_eq!(half.mul(&half).round_mul_u128(100), 25);
    assert_eq!(BigDecimal::from_u32(1).pow(1000).round_u128(), 1);
    assert_eq!(BigDecimal::from_u32(2).pow(10).round_u128(), 1024);
    assert!(half.lt(&BigDecimal::one()));
    assert!(half.le(&half));
    assert!(half.eq(&BigDecimal::from_ratio(5000)));
    // Division rounds to nearest, ties up: 2 / 3 and 1 / 2 of 10^-27.
    let tiny = BigDecimal::from_low_u128(LowU128(2));
    assert_eq!(raw(&tiny.div(&BigDecimal::from_u32(3))), 1);
    let one_unit = BigDecimal::from_low_u128(LowU128(1));
    assert_eq!(raw(&one_unit.div(&BigDecimal::from_u32(2))), 1);
    assert_eq!(raw(&one_unit.div(&BigDecimal::from_u32(3))), 0);
    // 5 units at 2 $ with 1 decimal of price: 1 $.
    let v = BigDecimal::from_balance_price(5, &Price { multiplier: 2, decimals: 1 });
    assert_eq!(v.round_u128(), 1);
    let v = BigDecimal::from_balance_price(5, &Price { multiplier: 2, decimals: 28 });
    assert_eq!(raw(&v), 1);
    assert!(Price { multiplier: 1, decimals: 77 }.assert_valid());
    assert!(!Price { multiplier: 1, decimals: 78 }.assert_valid());
    // The low 128 bits of a larger value.
    let big = BigDecimal::from_u128(u128::MAX);
    assert_eq!(LowU128::from_big_decimal(&big).0, u128::MAX.wrapping_mul(BIG_DIVISOR));
}

#[test]
fn test_config_valid() {
    let config = Config {
        oracle_account_id: "oracle".to_string(),
        owner_id: "owner".to_string(),
        booster_token_id: "booster".to_string(),
        booster_decimals: 18,
        max_num_assets: 10,
        maximum_recency_duration_sec: 90,
        maximum_staleness_duration_sec: 15,
        minimum_staking_duration_sec: 2678400,
        maximum_staking_duration_sec: 31536000,
        x_booster_multiplier_at_maximum_staking_duration: 40000,
        force_closing_enabled: true,
    };
    assert!(config.assert_valid());
    assert_eq!(config.check_price_data(1_000_000_000, 16_000_000_000), Ok(()));
    assert_eq!(
        config.check_price_data(1_000_000_000, 16_000_000_001),
        Err(LendingError::StalePriceData)
    );
    let bad = Config { x_booster_multiplier_at_maximum_staking_duration: 9999, ..config };
    assert!(!bad.assert_valid());
}
