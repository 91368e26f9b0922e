//! Protocol-wide configuration.
use vstd::prelude::*;

use crate::error::LendingError;

verus! {

/// The smallest booster multiplier, 100%.
pub const MIN_BOOSTER_MULTIPLIER: u32 = 10000;

/// Protocol-wide settings.
pub struct Config {
    /// The oracle account.
    pub oracle_account_id: String,
    /// The owner, who may change the configuration, the assets and the reserves.
    pub owner_id: String,
    /// The booster token.
    pub booster_token_id: String,
    /// The booster token's decimals.
    pub booster_decimals: u8,
    /// The most assets that can be listed.
    pub max_num_assets: u32,
    /// The longest recency window the oracle may give, in seconds.
    pub maximum_recency_duration_sec: u32,
    /// The oldest price data that is accepted, in seconds.
    pub maximum_staleness_duration_sec: u32,
    /// The shortest booster staking duration, in seconds.
    pub minimum_staking_duration_sec: u32,
    /// The longest booster staking duration, in seconds.
    pub maximum_staking_duration_sec: u32,
    /// The booster multiplier at the longest staking duration, per ten thousand.
    pub x_booster_multiplier_at_maximum_staking_duration: u32,
    /// Whether accounts with bad debt may be closed from the reserves.
    pub force_closing_enabled: bool,
}

impl Config {
    /// The configuration's invariant.
    pub open spec fn valid(&self) -> bool {
        &&& self.minimum_staking_duration_sec < self.maximum_staking_duration_sec
        &&& self.x_booster_multiplier_at_maximum_staking_duration >= MIN_BOOSTER_MULTIPLIER
    }

    /// Whether the configuration keeps its invariant.
    pub fn assert_valid(&self) -> (r: bool)
        ensures
            r == self.valid(),
    {
        self.minimum_staking_duration_sec < self.maximum_staking_duration_sec
            && self.x_booster_multiplier_at_maximum_staking_duration >= MIN_BOOSTER_MULTIPLIER
    }

    /// Accepts the owner only.
    pub fn assert_owner(&self, caller: &String) -> (r: Result<(), LendingError>)
        ensures
            r is Ok <==> caller@ == self.owner_id@,
            r is Err ==> r->Err_0 == LendingError::NotOwner,
    {
        if *caller == self.owner_id {
            Ok(())
        } else {
            Err(LendingError::NotOwner)
        }
    }

    /// Accepts price data stamped `price_timestamp` at `now`, both in
    /// nanoseconds, unless it is older than the allowed staleness.
    pub fn check_price_data(&self, price_timestamp: u64, now: u64) -> (r: Result<(), LendingError>)
        ensures
            r is Ok <==> price_timestamp + self.maximum_staleness_duration_sec * 1_000_000_000nat
                >= now,
            r is Err ==> r->Err_0 == LendingError::StalePriceData,
    {
        let window: u128 = self.maximum_staleness_duration_sec as u128 * 1_000_000_000;
        if (price_timestamp as u128) + window >= now as u128 {
            Ok(())
        } else {
            Err(LendingError::StalePriceData)
        }
    }
}

} // verus!
