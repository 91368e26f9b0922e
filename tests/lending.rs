use burrowland::config::Config;
use burrowland::farm::FarmId;
use burrowland::account::{Account, AccountAsset};
use burrowland::actions::{Action, AssetAmount, Contract};
use burrowland::asset::Asset;
use burrowland::asset_config::AssetConfig;
use burrowland::big_decimal::{BigDecimal, LowU128, BIG_DIVISOR};
use burrowland::error::LendingError;
use burrowland::price::Price;
use burrowland::prices::Prices;

const X: usize = 0;
const Y: usize = 1;
const NANOS_PER_YEAR: u64 = 31536000000 * 1_000_000;

fn d(value: u128, decimals: u32) -> u128 {
    value * 10u128.pow(decimals)
}

fn config(target_rate: u128, volatility_ratio: u32) -> AssetConfig {
    AssetConfig {
        reserve_ratio: 2500,
        target_utilization: 8000,
        target_utilization_rate: LowU128(target_rate),
        max_utilization_rate: LowU128(1000000000039724853136740579),
        volatility_ratio,
    }
}

/// X: a stable token with 18 decimals and 95% volatility ratio at an 8% APR target;
/// Y: a volatile token with 24 decimals and 60% volatility ratio.
fn contract() -> Contract {
    Contract {
        asset_ids: vec!["x.token".to_string(), "y.token".to_string()],
        assets: vec![
            Asset::new(0, config(1000000000002440418605283556, 9500)),
            Asset::new(0, config(1000000000003593629036885046, 6000)),
        ],
    }
}

fn prices(y_multiplier: u128) -> Prices {
    Prices {
        prices: vec![
            Some(Price { multiplier: 10000, decimals: 22 }),
            Some(Price { multiplier: y_multiplier, decimals: 28 }),
        ],
    }
}

fn exact(token: &str, amount: u128) -> AssetAmount {
    AssetAmount { token_id: token.to_string(), amount: Some(amount), max_amount: None }
}

fn all(token: &str) -> AssetAmount {
    AssetAmount { token_id: token.to_string(), amount: None, max_amount: None }
}

fn balance_of(c: &Contract, index: usize, shares: u128) -> u128 {
    c.assets[index].supplied.shares_to_amount(shares, false)
}

fn relative_eq(a: u128, b: u128, tolerance: f64) -> bool {
    ((a as f64) - (b as f64)).abs() <= tolerance * (b as f64)
}

/// Alice posts 1000 X as collateral, Bob supplies 100 Y, Alice borrows 50 Y
/// and withdraws it.
fn alice_borrows() -> (Contract, Account, Account) {
    let mut c = contract();
    let mut alice = Account::new(&"alice".to_string(), 2);
    let mut bob = Account::new(&"bob".to_string(), 2);
    c.internal_deposit(&mut alice, &"x.token".to_string(), d(1000, 18)).unwrap();
    c.internal_increase_collateral(&mut alice, &all("x.token")).unwrap();
    c.internal_deposit(&mut bob, &"y.token".to_string(), d(100, 24)).unwrap();
    let actions = vec![
        Action::Borrow(exact("y.token", d(50, 24))),
        Action::Withdraw(exact("y.token", d(50, 24))),
    ];
    let outcome = c.internal_execute(&mut alice, &mut vec![], &actions, &prices(100000)).unwrap();
    assert_eq!(outcome.transfers, vec![("y.token".to_string(), d(50, 24))]);
    assert_eq!(
        outcome.affected_farms,
        vec![
            FarmId::Supplied("y.token".to_string()),
            FarmId::Borrowed("y.token".to_string()),
            FarmId::Supplied("y.token".to_string()),
        ]
    );
    assert!(outcome.liquidated_farms.is_empty());
    (c, alice, bob)
}

#[test]
fn test_supply() {
    let mut c = contract();
    let mut alice = Account::new(&"alice".to_string(), 2);
    let shares = c.internal_deposit(&mut alice, &"x.token".to_string(), d(100, 18)).unwrap();
    assert_eq!(shares, d(100, 18));
    assert_eq!(alice.supplied[X], d(100, 18));
    assert_eq!(c.assets[X].supplied.balance, d(100, 18));
    assert_eq!(balance_of(&c, X, alice.supplied[X]), d(100, 18));
}

#[test]
fn test_supply_to_collateral() {
    let mut c = contract();
    let mut alice = Account::new(&"alice".to_string(), 2);
    c.internal_deposit(&mut alice, &"x.token".to_string(), d(100, 18)).unwrap();
    let amount = c.internal_increase_collateral(&mut alice, &all("x.token")).unwrap();
    assert_eq!(amount, d(100, 18));
    assert_eq!(alice.supplied[X], 0);
    assert_eq!(alice.collateral[X], d(100, 18));
    assert_eq!(alice.get_num_positions(), 1);
}

#[test]
fn test_borrow() {
    let mut c = contract();
    let mut alice = Account::new(&"alice".to_string(), 2);
    let mut bob = Account::new(&"bob".to_string(), 2);
    c.internal_deposit(&mut alice, &"x.token".to_string(), d(1000, 18)).unwrap();
    c.internal_increase_collateral(&mut alice, &all("x.token")).unwrap();
    c.internal_deposit(&mut bob, &"y.token".to_string(), d(100, 24)).unwrap();
    let actions = vec![Action::Borrow(exact("y.token", d(50, 24)))];
    c.internal_execute(&mut alice, &mut vec![], &actions, &prices(100000)).unwrap();
    assert_eq!(alice.borrowed[Y], d(50, 24));
    assert_eq!(alice.supplied[Y], d(50, 24));
    assert_eq!(c.assets[Y].borrowed.balance, d(50, 24));
    assert_eq!(c.assets[Y].supplied.balance, d(150, 24));
    assert_eq!(c.assets[Y].available_amount(), d(100, 24));
    let discount = c.compute_max_discount(&alice, &prices(100000)).unwrap();
    assert!(discount.is_zero());
}

#[test]
fn test_borrow_and_withdraw() {
    let (c, alice, _bob) = alice_borrows();
    assert_eq!(alice.supplied[Y], 0);
    assert_eq!(alice.borrowed[Y], d(50, 24));
    assert_eq!(c.assets[Y].supplied.balance, d(100, 24));
    assert_eq!(c.assets[Y].available_amount(), d(50, 24));
}

#[test]
fn test_borrow_too_much_fails_and_changes_nothing() {
    let (mut c, mut alice, _bob) = alice_borrows();
    // 600 $ of weighted debt would be 1000 $ after the volatility ratio, above 950 $.
    let actions = vec![Action::Borrow(exact("y.token", d(40, 24)))];
    let res = c.internal_execute(&mut alice, &mut vec![], &actions, &prices(100000));
    assert_eq!(res, Err(LendingError::AtRisk));
    assert_eq!(alice.borrowed[Y], d(50, 24));
    assert_eq!(c.assets[Y].borrowed.balance, d(50, 24));
}

#[test]
fn test_interest() {
    let mut c = contract();
    let mut alice = Account::new(&"alice".to_string(), 2);
    let mut bob = Account::new(&"bob".to_string(), 2);
    c.internal_deposit(&mut alice, &"y.token".to_string(), d(10000, 24)).unwrap();
    c.internal_increase_collateral(&mut alice, &all("y.token")).unwrap();
    c.internal_deposit(&mut bob, &"x.token".to_string(), d(10000, 18)).unwrap();
    let actions = vec![
        Action::Borrow(exact("x.token", d(8000, 18))),
        Action::Withdraw(exact("x.token", d(8000, 18))),
    ];
    c.internal_execute(&mut alice, &mut vec![], &actions, &prices(100000)).unwrap();
    assert_eq!(c.assets[X].borrowed.balance, d(8000, 18));
    // 80% utilization: the target rate, 8% a year.
    let rate = c.assets[X].get_rate();
    assert_eq!(LowU128::from_big_decimal(&rate).0, 1000000000002440418605283556);

    let mut asset = c.assets[X];
    asset.update(NANOS_PER_YEAR);
    let expected = d(8000, 18) * 108 / 100;
    assert!(relative_eq(asset.borrowed.balance, expected, 1e-9));
    let interest = asset.borrowed.balance - d(8000, 18);
    assert_eq!(asset.reserved, interest * 2500 / 10000);
    assert_eq!(asset.supplied.balance, d(10000, 18) + interest - asset.reserved);
    assert_eq!(asset.last_update_timestamp, NANOS_PER_YEAR);
    // A second update at the same time changes nothing.
    let before = asset;
    asset.update(NANOS_PER_YEAR);
    assert_eq!(asset, before);
    // The exchange rate of supplied shares only grows.
    assert!(asset.supplied.shares_to_amount(d(1000, 18), false) > d(1000, 18));
}

#[test]
fn test_liquidation_alice_by_bob() {
    let (mut c, mut alice, mut bob) = alice_borrows();
    // Y goes from 10 $ to 12 $: 600 $ of debt weigh 1000 $ against 950 $ of collateral.
    let p = prices(120000);
    let discount = c.compute_max_discount(&alice, &p).unwrap();
    assert!(!discount.is_zero());
    // (1000 - 950) / 1000 / 2 = 2.5%
    assert_eq!(LowU128::from_big_decimal(&discount).0, BIG_DIVISOR / 40);

    let mut others = vec![alice];
    let actions = vec![Action::Liquidate {
        account_id: "alice".to_string(),
        in_assets: vec![exact("y.token", d(49, 23))],
        out_assets: vec![exact("x.token", d(60, 18))],
    }];
    let outcome = c.internal_execute(&mut bob, &mut others, &actions, &p).unwrap();
    assert_eq!(
        outcome.affected_farms,
        vec![FarmId::Supplied("y.token".to_string()), FarmId::Supplied("x.token".to_string())]
    );
    assert_eq!(
        outcome.liquidated_farms,
        vec![
            ("alice".to_string(), FarmId::Borrowed("y.token".to_string())),
            ("alice".to_string(), FarmId::Supplied("x.token".to_string())),
        ]
    );
    let alice = &others[0];
    assert_eq!(balance_of(&c, X, alice.collateral[X]), d(940, 18));
    assert_eq!(
        c.get_all_potential_farms(alice),
        vec![FarmId::Supplied("x.token".to_string()), FarmId::Borrowed("y.token".to_string())]
    );
    assert_eq!(alice.borrowed[Y], d(50, 24) - d(49, 23));
    assert_eq!(bob.supplied[Y], d(100, 24) - d(49, 23));
    assert_eq!(balance_of(&c, X, bob.supplied[X]), d(60, 18));
    let after = c.compute_max_discount(alice, &p).unwrap();
    assert!(after.lt(&discount));
}

#[test]
fn test_liquidation_taking_too_much_fails() {
    let (mut c, alice, mut bob) = alice_borrows();
    let p = prices(120000);
    let mut others = vec![alice];
    // 4.9 Y at 12 $ repays 58.8 $; 61 X at a 2.5% discount is worth 59.475 $.
    let actions = vec![Action::Liquidate {
        account_id: "alice".to_string(),
        in_assets: vec![exact("y.token", d(49, 23))],
        out_assets: vec![exact("x.token", d(61, 18))],
    }];
    let res = c.internal_execute(&mut bob, &mut others, &actions, &p);
    assert_eq!(res, Err(LendingError::InsufficientRepayment));
    assert_eq!(others[0].borrowed[Y], d(50, 24));
    assert_eq!(bob.supplied[Y], d(100, 24));
}

#[test]
fn test_liquidation_not_at_risk() {
    let (mut c, mut alice, mut bob) = alice_borrows();
    let mut target = Account::new(&"alice".to_string(), 2);
    std::mem::swap(&mut target, &mut alice);
    let res = c.internal_liquidate(
        &mut bob,
        &mut target,
        &prices(100000),
        &vec![exact("y.token", d(1, 24))],
        &vec![exact("x.token", d(1, 18))],
    );
    assert_eq!(res, Err(LendingError::NotAtRisk));
}

#[test]
fn test_liquidation_decrease_health_factor() {
    // With both volatility ratios at 100%, taking collateral at the full
    // discount widens the shortfall relative to the debt.
    let mut c = Contract {
        asset_ids: vec!["x.token".to_string(), "y.token".to_string()],
        assets: vec![
            Asset::new(0, config(1000000000002440418605283556, 10000)),
            Asset::new(0, config(1000000000003593629036885046, 10000)),
        ],
    };
    let mut alice = Account::new(&"alice".to_string(), 2);
    let mut bob = Account::new(&"bob".to_string(), 2);
    c.internal_deposit(&mut alice, &"x.token".to_string(), d(1000, 18)).unwrap();
    c.internal_increase_collateral(&mut alice, &all("x.token")).unwrap();
    c.internal_deposit(&mut bob, &"y.token".to_string(), d(100, 24)).unwrap();
    c.internal_borrow(&mut alice, &exact("y.token", d(50, 24))).unwrap();
    // Y at 21 $: 1050 $ of debt against 1000 $ of collateral.
    let p = prices(210000);
    let mut others = vec![alice];
    // 1 Y repays 21 $; 21.5 X at the 2.38% discount is worth 20.99 $.
    let actions = vec![Action::Liquidate {
        account_id: "alice".to_string(),
        in_assets: vec![exact("y.token", d(1, 24))],
        out_assets: vec![exact("x.token", d(215, 17))],
    }];
    let res = c.internal_execute(&mut bob, &mut others, &actions, &p);
    assert_eq!(res, Err(LendingError::HealthDecrease));
    assert_eq!(others[0].collateral[X], d(1000, 18));
    assert_eq!(others[0].borrowed[Y], d(50, 24));
}

#[test]
fn test_self_liquidation_fails() {
    let (mut c, mut alice, _bob) = alice_borrows();
    let actions = vec![Action::Liquidate {
        account_id: "alice".to_string(),
        in_assets: vec![exact("y.token", d(1, 23))],
        out_assets: vec![exact("x.token", d(1, 18))],
    }];
    let res = c.internal_execute(&mut alice, &mut vec![], &actions, &prices(120000));
    assert_eq!(res, Err(LendingError::SelfLiquidation));
}

fn operator_config(force_closing_enabled: bool) -> Config {
    Config {
        oracle_account_id: "oracle".to_string(),
        owner_id: "owner".to_string(),
        booster_token_id: "booster".to_string(),
        booster_decimals: 18,
        max_num_assets: 10,
        maximum_recency_duration_sec: 90,
        maximum_staleness_duration_sec: 15,
        minimum_staking_duration_sec: 2678400,
        maximum_staking_duration_sec: 31536000,
        x_booster_multiplier_at_maximum_staking_duration: 40000,
        force_closing_enabled,
    }
}

#[test]
fn test_force_close() {
    let (mut c, mut alice, _bob) = alice_borrows();
    let cfg = operator_config(true);
    assert_eq!(
        c.internal_force_close(&operator_config(false), &mut alice, &prices(250000)),
        Err(LendingError::ForceClosingDisabled)
    );
    assert_eq!(cfg.assert_owner(&"owner".to_string()), Ok(()));
    assert_eq!(cfg.assert_owner(&"alice".to_string()), Err(LendingError::NotOwner));
    // At 12 $ the debt is 600 $, below 1000 $ of collateral before weighting.
    assert_eq!(c.internal_force_close(&cfg, &mut alice, &prices(120000)), Err(LendingError::NotBadDebt));
    assert_eq!(alice.collateral[X], d(1000, 18));
    // At 25 $ the debt is 1250 $.
    c.assets[Y].reserved = d(60, 24);
    c.internal_force_close(&cfg, &mut alice, &prices(250000)).unwrap();
    assert_eq!(alice.collateral[X], 0);
    assert_eq!(alice.borrowed[Y], 0);
    assert_eq!(c.assets[X].reserved, d(1000, 18));
    assert_eq!(c.assets[Y].reserved, d(10, 24));
    assert_eq!(c.assets[Y].borrowed.balance, 0);
}

#[test]
fn test_missing_price() {
    let (c, alice, _bob) = alice_borrows();
    let p = Prices { prices: vec![Some(Price { multiplier: 10000, decimals: 22 })] };
    assert_eq!(c.compute_max_discount(&alice, &p).err(), Some(LendingError::MissingPrice));
}

#[test]
fn test_repay_all() {
    let mut c = contract();
    let mut alice = Account::new(&"alice".to_string(), 2);
    let mut bob = Account::new(&"bob".to_string(), 2);
    c.internal_deposit(&mut alice, &"x.token".to_string(), d(1000, 18)).unwrap();
    c.internal_increase_collateral(&mut alice, &all("x.token")).unwrap();
    c.internal_deposit(&mut bob, &"y.token".to_string(), d(100, 24)).unwrap();
    let actions = vec![Action::Borrow(exact("y.token", d(50, 24))), Action::Repay(all("y.token"))];
    c.internal_execute(&mut alice, &mut vec![], &actions, &prices(100000)).unwrap();
    assert_eq!(alice.borrowed[Y], 0);
    assert_eq!(alice.supplied[Y], 0);
    assert_eq!(c.assets[Y].borrowed.balance, 0);
    assert_eq!(c.assets[Y].supplied.balance, d(100, 24));
}

#[test]
fn test_withdraw_errors() {
    let mut c = contract();
    let mut alice = Account::new(&"alice".to_string(), 2);
    c.internal_deposit(&mut alice, &"x.token".to_string(), d(10, 18)).unwrap();
    assert_eq!(
        c.internal_withdraw(&mut alice, &exact("x.token", d(11, 18))),
        Err(LendingError::InsufficientBalance)
    );
    assert_eq!(
        c.internal_withdraw(&mut alice, &exact("z.token", 1)),
        Err(LendingError::AssetNotFound)
    );
    assert_eq!(
        c.internal_withdraw(&mut alice, &exact("x.token", 0)),
        Err(LendingError::ZeroAmountOrShares)
    );
    let capped = AssetAmount { token_id: "x.token".to_string(), amount: None, max_amount: Some(d(4, 18)) };
    assert_eq!(c.internal_withdraw(&mut alice, &capped), Ok(d(4, 18)));
    assert_eq!(c.internal_withdraw(&mut alice, &all("x.token")), Ok(d(6, 18)));
    assert_eq!(c.assets[X].supplied.balance, 0);
    assert_eq!(c.assets[X].supplied.shares, 0);
}

#[test]
fn test_too_many_assets() {
    let n = 9;
    let mut c = Contract { asset_ids: vec![], assets: vec![] };
    let mut price_list = vec![];
    for k in 0..n {
        c.asset_ids.push(format!("t{}", k));
        c.assets.push(Asset::new(0, config(1000000000002440418605283556, 9500)));
        price_list.push(Some(Price { multiplier: 10000, decimals: 22 }));
    }
    let mut alice = Account::new(&"alice".to_string(), n);
    let mut actions = vec![];
    for k in 0..n {
        c.internal_deposit(&mut alice, &format!("t{}", k), d(1, 18)).unwrap();
        actions.push(Action::IncreaseCollateral(all(&format!("t{}", k))));
    }
    let res = c.internal_execute(&mut alice, &mut vec![], &actions, &Prices { prices: price_list });
    assert_eq!(res, Err(LendingError::TooManyAssets));
    assert_eq!(alice.get_num_positions(), 0);
}

#[test]
fn test_account_asset_shares() {
    let mut a = AccountAsset::new();
    assert!(a.is_empty());
    a.deposit_shares(5);
    assert_eq!(a.withdraw_shares(6), Err(LendingError::InsufficientBalance));
    assert_eq!(a.withdraw_shares(5), Ok(()));
    assert!(a.is_empty());
    assert_eq!(BigDecimal::zero().round_u128(), 0);
}

#[test]
fn test_account_view() {
    let (c, alice, bob) = alice_borrows();
    let view = c.account_into_detailed_view(&alice, &vec![], &vec![]);
    assert_eq!(view.account_id, "alice");
    assert!(view.supplied.is_empty());
    assert_eq!(view.collateral.len(), 1);
    assert_eq!(view.collateral[0].token_id, "x.token");
    assert_eq!(view.collateral[0].balance, d(1000, 18));
    assert_eq!(view.borrowed.len(), 1);
    assert_eq!(view.borrowed[0].token_id, "y.token");
    assert_eq!(view.borrowed[0].balance, d(50, 24));
    let view = c.account_into_detailed_view(&bob, &vec![], &vec![]);
    assert_eq!(view.supplied.len(), 1);
    assert_eq!(view.supplied[0].shares, d(100, 24));
    assert!(view.farms.is_empty());
}

#[test]
fn test_discount_without_collateral_is_one_half() {
    let (mut c, mut alice, _bob) = alice_borrows();
    // Take the collateral away by hand: debt with no collateral at all.
    alice.collateral[X] = 0;
    c.assets[X].supplied.shares -= d(1000, 18);
    c.assets[X].supplied.balance -= d(1000, 18);
    let discount = c.compute_max_discount(&alice, &prices(100000)).unwrap();
    assert_eq!(LowU128::from_big_decimal(&discount).0, BIG_DIVISOR / 2);
}

#[test]
fn test_borrow_rounds_debt_shares_up() {
    let mut c = contract();
    let mut alice = Account::new(&"alice".to_string(), 2);
    let mut bob = Account::new(&"bob".to_string(), 2);
    c.internal_deposit(&mut bob, &"x.token".to_string(), d(100, 18)).unwrap();
    c.internal_deposit(&mut alice, &"y.token".to_string(), d(100, 24)).unwrap();
    c.internal_increase_collateral(&mut alice, &all("y.token")).unwrap();
    // A borrowed pool of 2 shares standing for 3 units.
    c.assets[X].borrowed = burrowland::pool::Pool { shares: 2, balance: 3 };
    c.assets[X].supplied.balance += 3;
    c.internal_borrow(&mut alice, &exact("x.token", 2)).unwrap();
    assert_eq!(alice.borrowed[X], 2);
    assert_eq!(c.assets[X].borrowed.shares, 4);
}

#[test]
fn test_liquidation_two_debts() {
    // X and Z are stable (95%), Y volatile (60%).
    let mut c = Contract {
        asset_ids: vec!["x.token".to_string(), "y.token".to_string(), "z.token".to_string()],
        assets: vec![
            Asset::new(0, config(1000000000002440418605283556, 9500)),
            Asset::new(0, config(1000000000003593629036885046, 6000)),
            Asset::new(0, config(1000000000002440418605283556, 9500)),
        ],
    };
    let price_list = |y: u128| Prices {
        prices: vec![
            Some(Price { multiplier: 10000, decimals: 22 }),
            Some(Price { multiplier: y, decimals: 28 }),
            Some(Price { multiplier: 10000, decimals: 22 }),
        ],
    };
    let mut alice = Account::new(&"alice".to_string(), 3);
    let mut bob = Account::new(&"bob".to_string(), 3);
    c.internal_deposit(&mut alice, &"x.token".to_string(), d(1000, 18)).unwrap();
    c.internal_increase_collateral(&mut alice, &all("x.token")).unwrap();
    c.internal_deposit(&mut bob, &"y.token".to_string(), d(100, 24)).unwrap();
    c.internal_deposit(&mut bob, &"z.token".to_string(), d(100, 18)).unwrap();
    let actions = vec![
        Action::Borrow(exact("y.token", d(50, 24))),
        Action::Withdraw(exact("y.token", d(50, 24))),
        Action::Borrow(exact("z.token", d(50, 18))),
        Action::Withdraw(exact("z.token", d(50, 18))),
    ];
    c.internal_execute(&mut alice, &mut vec![], &actions, &price_list(100000)).unwrap();
    let p = price_list(120000);
    let mut others = vec![alice];
    // Repaying stable debt while taking stable collateral worsens the ratio.
    let worse = vec![Action::Liquidate {
        account_id: "alice".to_string(),
        in_assets: vec![exact("z.token", d(49, 18))],
        out_assets: vec![exact("x.token", d(50, 18))],
    }];
    assert_eq!(
        c.internal_execute(&mut bob, &mut others, &worse, &p),
        Err(LendingError::HealthDecrease)
    );
    let better = vec![Action::Liquidate {
        account_id: "alice".to_string(),
        in_assets: vec![exact("y.token", d(49, 23)), exact("z.token", d(50, 18))],
        out_assets: vec![exact("x.token", d(111, 18))],
    }];
    c.internal_execute(&mut bob, &mut others, &better, &p).unwrap();
    let alice = &others[0];
    assert_eq!(balance_of(&c, X, alice.collateral[X]), d(889, 18));
    assert_eq!(alice.borrowed[Y], d(451, 23));
    assert_eq!(alice.borrowed[2], 0);
    assert_eq!(bob.supplied[Y], d(951, 23));
    assert_eq!(balance_of(&c, 2, bob.supplied[2]), d(50, 18));
    assert_eq!(balance_of(&c, X, bob.supplied[X]), d(111, 18));
}
