use burrowland::views::account_farm_view;
use burrowland::account::Account;
use burrowland::actions::Contract;
use burrowland::asset_config::AssetConfig;
use burrowland::big_decimal::{BigDecimal, LowU128};
use burrowland::error::LendingError;
use burrowland::farm::{
    is_claimable, internal_account_apply_farm, internal_account_farm_claim, settle_boosted_shares, AccountFarm, AccountFarmReward, AssetFarm,
    AssetFarmReward, FarmId, NANOS_PER_DAY,
};

fn reward(boosted_shares: u128, remaining: u128) -> AssetFarmReward {
    AssetFarmReward {
        token_id: "reward.token".to_string(),
        reward_per_day: 1000,
        booster_log_base: 100,
        remaining_rewards: remaining,
        boosted_shares,
        reward_per_share: BigDecimal::zero(),
    }
}

fn raw(b: &BigDecimal) -> u128 {
    LowU128::from_big_decimal(b).0
}

#[test]
fn test_farm_id_token() {
    let f = FarmId::Supplied("a.token".to_string());
    assert_eq!(f.get_token_id(), "a.token");
    let f = FarmId::Borrowed("b.token".to_string());
    assert_eq!(f.get_token_id(), "b.token");
}

#[test]
fn test_farm_update_releases_pro_rata() {
    let mut farm = AssetFarm { block_timestamp: 0, rewards: vec![reward(100, 10000), reward(0, 10000)] };
    farm.update(NANOS_PER_DAY / 2);
    assert_eq!(farm.block_timestamp, NANOS_PER_DAY / 2);
    // Half a day releases 500, that is 5 per boosted share.
    assert_eq!(farm.rewards[0].remaining_rewards, 9500);
    assert_eq!(raw(&farm.rewards[0].reward_per_share), raw(&BigDecimal::from_u128(5)));
    // Without boosted shares nothing is released.
    assert_eq!(farm.rewards[1].remaining_rewards, 10000);
    assert!(farm.rewards[1].reward_per_share.is_zero());
}

#[test]
fn test_farm_update_capped_by_remaining() {
    let mut farm = AssetFarm { block_timestamp: 0, rewards: vec![reward(100, 300)] };
    farm.update(10 * NANOS_PER_DAY);
    assert_eq!(farm.rewards[0].remaining_rewards, 0);
    assert_eq!(raw(&farm.rewards[0].reward_per_share), raw(&BigDecimal::from_u128(3)));
    // Once empty, the accumulator stays where it is.
    farm.update(20 * NANOS_PER_DAY);
    assert_eq!(raw(&farm.rewards[0].reward_per_share), raw(&BigDecimal::from_u128(3)));
}

#[test]
fn test_farm_accounting_closure() {
    let mut farm = AssetFarm { block_timestamp: 0, rewards: vec![reward(0, 100000)] };
    let mut alice = AccountFarmReward { boosted_shares: 0, last_reward_per_share: BigDecimal::zero() };
    let mut bob = AccountFarmReward { boosted_shares: 0, last_reward_per_share: BigDecimal::zero() };
    settle_boosted_shares(&mut farm.rewards[0], &mut alice, 30);
    settle_boosted_shares(&mut farm.rewards[0], &mut bob, 70);
    assert_eq!(farm.rewards[0].boosted_shares, 100);

    farm.update(NANOS_PER_DAY);
    let rps = farm.rewards[0].reward_per_share.duplicate();
    let a = alice.unclaimed_amount(&rps);
    let b = bob.unclaimed_amount(&rps);
    assert_eq!(a, 300);
    assert_eq!(b, 700);
    assert_eq!(a + b + farm.rewards[0].remaining_rewards, 100000);

    // Alice's shares change: she is settled and the farm total follows.
    settle_boosted_shares(&mut farm.rewards[0], &mut alice, 50);
    assert_eq!(farm.rewards[0].boosted_shares, 120);
    assert_eq!(alice.unclaimed_amount(&rps), 0);
    assert_eq!(alice.boosted_shares + bob.boosted_shares, farm.rewards[0].boosted_shares);
}

#[test]
fn test_account_farm_claim() {
    let mut farm = AssetFarm {
        block_timestamp: 0,
        rewards: vec![reward(100, 100000), AssetFarmReward { token_id: "other.token".to_string(), ..reward(100, 100000) }],
    };
    farm.update(NANOS_PER_DAY);
    let account_farm = AccountFarm {
        block_timestamp: 0,
        rewards: vec![(
            "reward.token".to_string(),
            AccountFarmReward { boosted_shares: 40, last_reward_per_share: BigDecimal::zero() },
        )],
    };
    let (settled, paid) = internal_account_farm_claim(&account_farm, &farm, 7);
    // A day releases 1000 over 100 boosted shares; 40 of them earned 400.
    assert_eq!(paid, vec![("reward.token".to_string(), 400)]);
    assert_eq!(settled.block_timestamp, 7);
    assert_eq!(settled.rewards.len(), 2);
    assert_eq!(settled.rewards[0].0, "reward.token");
    assert_eq!(settled.rewards[0].1.boosted_shares, 40);
    assert_eq!(raw(&settled.rewards[0].1.last_reward_per_share), raw(&BigDecimal::from_u128(10)));
    assert_eq!(settled.rewards[1].0, "other.token");
    assert_eq!(settled.rewards[1].1.boosted_shares, 0);
    // Settling again at the same timestamp pays nothing.
    let (again, paid) = internal_account_farm_claim(&settled, &farm, 7);
    assert!(paid.is_empty());
    assert_eq!(again.rewards.len(), 2);
}

#[test]
fn test_apply_farm_boosted_shares() {
    let mut farm = AssetFarm { block_timestamp: 0, rewards: vec![reward(100, 1000), reward(100, 1000)] };
    let mut account_farm = AccountFarm {
        block_timestamp: 0,
        rewards: vec![
            ("reward.token".to_string(), AccountFarmReward { boosted_shares: 40, last_reward_per_share: BigDecimal::zero() }),
            ("reward.token".to_string(), AccountFarmReward { boosted_shares: 10, last_reward_per_share: BigDecimal::zero() }),
        ],
    };
    internal_account_apply_farm(&mut farm, &mut account_farm, &vec![55, 0]).unwrap();
    assert_eq!(farm.rewards[0].boosted_shares, 115);
    assert_eq!(farm.rewards[1].boosted_shares, 90);
    assert_eq!(account_farm.rewards[0].1.boosted_shares, 55);
    assert_eq!(account_farm.rewards[1].1.boosted_shares, 0);
    // Entries that do not follow the farm are refused.
    assert_eq!(
        internal_account_apply_farm(&mut farm, &mut account_farm, &vec![1]),
        Err(LendingError::InsufficientBalance)
    );
    assert_eq!(farm.rewards[0].boosted_shares, 115);
}

#[test]
fn test_apply_affected_farms() {
    let config = AssetConfig {
        reserve_ratio: 2500,
        target_utilization: 8000,
        target_utilization_rate: LowU128(1000000000002440418605283556),
        max_utilization_rate: LowU128(1000000000039724853136740579),
        volatility_ratio: 9500,
    };
    let mut c = Contract { asset_ids: vec![], assets: vec![] };
    assert!(c.add_asset(&"a.token".to_string(), config, 0));
    assert!(c.add_asset(&"reward.token".to_string(), config, 0));
    let mut alice = Account::new(&"alice".to_string(), 2);
    c.internal_deposit(&mut alice, &"a.token".to_string(), 100).unwrap();
    let mut farm = AssetFarm { block_timestamp: 0, rewards: vec![reward(0, 100000)] };
    farm.rewards[0].boosted_shares = 40;
    farm.rewards[0].reward_per_share = BigDecimal::from_u128(10);
    let mut farms = vec![(FarmId::Supplied("a.token".to_string()), farm)];
    let mut account_farms = vec![AccountFarm {
        block_timestamp: 0,
        rewards: vec![(
            "reward.token".to_string(),
            AccountFarmReward { boosted_shares: 40, last_reward_per_share: BigDecimal::from_u128(5) },
        )],
    }];
    assert_eq!(c.raw_farm_shares(&alice, &farms[0].0), Some(100));
    let credited = c
        .internal_account_apply_affected_farms(&mut alice, &mut farms, &mut account_farms, &vec![vec![20]], 9)
        .unwrap();
    assert_eq!(credited, vec![FarmId::Supplied("reward.token".to_string())]);
    // 40 boosted shares earned 5 each: 200 reward tokens credited.
    assert_eq!(alice.supplied[1], 200);
    // The account now holds 100 raw shares plus 20 extra.
    assert_eq!(farms[0].1.rewards[0].boosted_shares, 120);
    assert_eq!(account_farms[0].block_timestamp, 9);
    assert_eq!(account_farms[0].rewards[0].1.boosted_shares, 120);
    assert_eq!(c.booster_balance(&alice, &"a.token".to_string()), 100);
}

#[test]
fn test_account_farm_view() {
    let mut farm = AssetFarm { block_timestamp: 0, rewards: vec![reward(100, 1000), AssetFarmReward { token_id: "other.token".to_string(), ..reward(100, 1000) }] };
    farm.rewards[0].reward_per_share = BigDecimal::from_u128(3);
    let account_farm = AccountFarm {
        block_timestamp: 0,
        rewards: vec![(
            "reward.token".to_string(),
            AccountFarmReward { boosted_shares: 10, last_reward_per_share: BigDecimal::from_u128(1) },
        )],
    };
    let view = account_farm_view(&FarmId::Supplied("a.token".to_string()), &farm, &account_farm);
    assert_eq!(view.farm_id, FarmId::Supplied("a.token".to_string()));
    assert_eq!(view.rewards.len(), 2);
    assert_eq!(view.rewards[0].boosted_shares, 10);
    assert_eq!(view.rewards[0].unclaimed_amount, 20);
    assert_eq!(view.rewards[1].boosted_shares, 0);
    assert_eq!(view.rewards[1].unclaimed_amount, 0);
}

#[test]
fn test_apply_affected_farms_same_block_and_refusal() {
    let config = AssetConfig {
        reserve_ratio: 2500,
        target_utilization: 8000,
        target_utilization_rate: LowU128(1000000000002440418605283556),
        max_utilization_rate: LowU128(1000000000039724853136740579),
        volatility_ratio: 9500,
    };
    let mut c = Contract { asset_ids: vec![], assets: vec![] };
    assert!(c.add_asset(&"a.token".to_string(), config, 0));
    assert!(c.add_asset(&"reward.token".to_string(), config, 0));
    let mut alice = Account::new(&"alice".to_string(), 2);
    c.internal_deposit(&mut alice, &"a.token".to_string(), 100).unwrap();
    let mut farm = AssetFarm { block_timestamp: 0, rewards: vec![reward(0, 100000)] };
    farm.rewards[0].boosted_shares = 40;
    let mut farms = vec![(FarmId::Supplied("a.token".to_string()), farm)];
    // Already settled in this block: no claim, only the boosted shares move.
    let mut account_farms = vec![AccountFarm {
        block_timestamp: 9,
        rewards: vec![(
            "reward.token".to_string(),
            AccountFarmReward { boosted_shares: 40, last_reward_per_share: BigDecimal::zero() },
        )],
    }];
    let credited = c
        .internal_account_apply_affected_farms(&mut alice, &mut farms, &mut account_farms, &vec![vec![0]], 9)
        .unwrap();
    assert!(credited.is_empty());
    assert_eq!(alice.supplied[1], 0);
    assert_eq!(farms[0].1.rewards[0].boosted_shares, 100);
    // Entries that claim more than the farm's total are refused, changing nothing.
    account_farms[0].rewards[0].1.boosted_shares = 500;
    assert!(c
        .internal_account_apply_affected_farms(&mut alice, &mut farms, &mut account_farms, &vec![vec![0]], 9)
        .is_err());
    assert_eq!(farms[0].1.rewards[0].boosted_shares, 100);
    assert_eq!(account_farms[0].rewards[0].1.boosted_shares, 500);
}

#[test]
fn test_is_claimable() {
    let farm = AssetFarm { block_timestamp: 0, rewards: vec![reward(100, 1000)] };
    let ahead = AccountFarm {
        block_timestamp: 0,
        rewards: vec![(
            "reward.token".to_string(),
            AccountFarmReward { boosted_shares: 1, last_reward_per_share: BigDecimal::from_u128(1) },
        )],
    };
    assert!(!is_claimable(&ahead, &farm));
    let behind = AccountFarm { block_timestamp: 0, rewards: vec![] };
    assert!(is_claimable(&behind, &farm));
}
