use burrowland::account::Account;
use burrowland::actions::{Contract, PendingTransfer};
use burrowland::asset_config::AssetConfig;
use burrowland::big_decimal::{BigDecimal, LowU128};
use burrowland::error::LendingError;
use burrowland::farm::{AssetFarm, FarmId};
use burrowland::price::{AssetOptionalPrice, Price, PriceData};
use burrowland::prices::Prices;

fn config() -> AssetConfig {
    AssetConfig {
        reserve_ratio: 2500,
        target_utilization: 8000,
        target_utilization_rate: LowU128(1000000000002440418605283556),
        max_utilization_rate: LowU128(1000000000039724853136740579),
        volatility_ratio: 9500,
    }
}

fn listed() -> Contract {
    let mut c = Contract { asset_ids: vec![], assets: vec![] };
    assert!(c.add_asset(&"a.token".to_string(), config(), 5));
    assert!(c.add_asset(&"b.token".to_string(), config(), 5));
    c
}

#[test]
fn test_add_and_update_asset() {
    let mut c = listed();
    assert!(!c.add_asset(&"a.token".to_string(), config(), 6));
    assert_eq!(c.assets.len(), 2);
    assert_eq!(c.assets[1].last_update_timestamp, 5);
    let bad = AssetConfig { volatility_ratio: 0, ..config() };
    assert!(!c.add_asset(&"c.token".to_string(), bad, 6));
    assert!(!c.update_asset(&"a.token".to_string(), bad));
    let changed = AssetConfig { reserve_ratio: 1000, ..config() };
    assert!(c.update_asset(&"a.token".to_string(), changed));
    assert_eq!(c.assets[0].config.reserve_ratio, 1000);
    assert!(!c.update_asset(&"z.token".to_string(), changed));
}

#[test]
fn test_assets_paged() {
    let c = listed();
    let all = c.get_assets_paged(None, None);
    assert_eq!(all.len(), 2);
    assert_eq!(all[1].0, "b.token");
    let tail = c.get_assets_paged(Some(1), Some(10));
    assert_eq!(tail.len(), 1);
    assert_eq!(tail[0].0, "b.token");
    assert!(c.get_assets_paged(Some(2), None).is_empty());
    assert!(c.get_assets_paged(Some(1), Some(1)).is_empty());
}

#[test]
fn test_failed_transfer_is_credited_back() {
    let mut c = listed();
    let mut alice = Account::new(&"alice".to_string(), 2);
    let mut pending = Some(PendingTransfer { token_id: "a.token".to_string(), amount: 50 });
    assert_eq!(c.after_ft_transfer(&mut alice, &mut pending, true), Ok(true));
    assert!(pending.is_none());
    assert_eq!(alice.supplied[0], 0);
    let mut pending = Some(PendingTransfer { token_id: "a.token".to_string(), amount: 50 });
    assert_eq!(c.after_ft_transfer(&mut alice, &mut pending, false), Ok(false));
    assert_eq!(alice.supplied[0], 50);
    assert_eq!(c.assets[0].supplied.balance, 50);
    // A replayed callback finds nothing pending and credits nothing.
    assert_eq!(c.after_ft_transfer(&mut alice, &mut pending, false), Ok(false));
    assert_eq!(alice.supplied[0], 50);
    let mut pending = Some(PendingTransfer { token_id: "z.token".to_string(), amount: 50 });
    assert_eq!(
        c.after_ft_transfer(&mut alice, &mut pending, false),
        Err(LendingError::AssetNotFound)
    );
    assert!(pending.is_some());
}

#[test]
fn test_prices_from_price_data() {
    let ids = vec!["a.token".to_string(), "b.token".to_string(), "c.token".to_string()];
    let data = PriceData {
        timestamp: 0,
        recency_duration_sec: 90,
        prices: vec![
            AssetOptionalPrice { asset_id: "b.token".to_string(), price: Some(Price { multiplier: 1, decimals: 2 }) },
            AssetOptionalPrice { asset_id: "a.token".to_string(), price: None },
            AssetOptionalPrice { asset_id: "b.token".to_string(), price: Some(Price { multiplier: 3, decimals: 4 }) },
        ],
    };
    let p = Prices::from_price_data(&ids, &data);
    assert_eq!(p.get(0), None);
    assert_eq!(p.get(1), Some(Price { multiplier: 3, decimals: 4 }));
    assert_eq!(p.get(2), None);
    assert_eq!(p.get(7), None);
    assert_eq!(Prices::new().get(0), None);
}

#[test]
fn test_add_asset_farm_reward() {
    let mut c = listed();
    c.assets[1].reserved = 1000;
    let mut farm = AssetFarm { block_timestamp: 0, rewards: vec![] };
    let farm_id = FarmId::Supplied("a.token".to_string());
    assert_eq!(
        c.add_asset_farm_reward(&mut farm, &farm_id, &"b.token".to_string(), 10, 100, 2000),
        Err(LendingError::InsufficientBalance)
    );
    assert_eq!(
        c.add_asset_farm_reward(&mut farm, &FarmId::Borrowed("z.token".to_string()), &"b.token".to_string(), 10, 100, 1),
        Err(LendingError::AssetNotFound)
    );
    assert_eq!(c.add_asset_farm_reward(&mut farm, &farm_id, &"b.token".to_string(), 10, 100, 600), Ok(()));
    assert_eq!(c.assets[1].reserved, 400);
    assert_eq!(farm.rewards.len(), 1);
    assert_eq!(farm.rewards[0].remaining_rewards, 600);
    assert!(farm.rewards[0].reward_per_share.is_zero());
    assert_eq!(c.add_asset_farm_reward(&mut farm, &farm_id, &"b.token".to_string(), 20, 200, 400), Ok(()));
    assert_eq!(farm.rewards.len(), 1);
    assert_eq!(farm.rewards[0].remaining_rewards, 1000);
    assert_eq!(farm.rewards[0].reward_per_day, 20);
    assert_eq!(c.assets[1].reserved, 0);
    assert!(BigDecimal::zero().eq(&farm.rewards[0].reward_per_share));
}

#[test]
fn test_account_positions() {
    let mut a = Account::new(&"alice".to_string(), 3);
    a.increase_collateral(1, 10);
    a.increase_borrowed(2, 4);
    assert_eq!(a.get_num_positions(), 2);
    assert_eq!(a.decrease_collateral(1, 11), Err(LendingError::InsufficientBalance));
    assert_eq!(a.decrease_collateral(1, 10), Ok(()));
    assert_eq!(a.decrease_borrowed(2, 5), Err(LendingError::InsufficientBalance));
    assert_eq!(a.get_borrowed_shares(2), 4);
    assert_eq!(a.get_supplied_shares(1), 0);
    assert_eq!(a.get_num_positions(), 1);
    let b = a.duplicate();
    assert_eq!(b.borrowed, a.borrowed);
    assert_eq!(b.account_id, "alice");
}

#[test]
fn test_check_wf() {
    let mut c = listed();
    assert!(c.check_wf());
    c.asset_ids[1] = "a.token".to_string();
    assert!(!c.check_wf());
    let mut c = listed();
    c.assets[0].borrowed.balance = 1;
    assert!(!c.check_wf());
}
