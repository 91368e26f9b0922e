//! Operator actions on farms.
use vstd::prelude::*;

use crate::actions::{available_spec, Contract};
use crate::asset::Asset;
use crate::big_decimal::BigDecimal;
use crate::error::LendingError;
use crate::farm::{unique_rewards, AssetFarm, AssetFarmReward, FarmId};

verus! {

/// Whether the farm already pays `token` at index `k`, and at no earlier index.
pub open spec fn reward_at(farm: &AssetFarm, token: Seq<char>, k: int) -> bool {
    &&& 0 <= k < farm.rewards@.len()
    &&& farm.rewards@[k].token_id@ == token
    &&& forall|j: int| 0 <= j < k ==> farm.rewards@[j].token_id@ != token
}

impl Contract {
    /// Attaches or tops up the reward `reward_token_id` of a farm: sets its
    /// rate and booster log base and adds `reward_amount` to what remains,
    /// taken from the reward asset's reserve.
    pub fn add_asset_farm_reward(
        &mut self,
        asset_farm: &mut AssetFarm,
        farm_id: &FarmId,
        reward_token_id: &String,
        new_reward_per_day: u128,
        new_booster_log_base: u128,
        reward_amount: u128,
    ) -> (r: Result<(), LendingError>)
        requires
            old(self).wf(),
        ensures
            final(self).wf(),
            final(self).asset_ids@ == old(self).asset_ids@,
            !old(self).listed(farm_id.token_id_spec()@) || !old(self).listed(reward_token_id@)
                ==> r is Err && r->Err_0 == LendingError::AssetNotFound,
            forall|i: int|
                old(self).listed(farm_id.token_id_spec()@) && old(self).listed_at(
                    reward_token_id@,
                    i,
                ) ==> {
                    let asset = old(self).assets@[i];
                    if asset.reserved < reward_amount || available_spec(asset) < reward_amount {
                        r is Err && r->Err_0 == LendingError::InsufficientBalance
                    } else {
                        &&& forall|k: int|
                            reward_at(old(asset_farm), reward_token_id@, k) ==> (
                            old(asset_farm).rewards@[k].remaining_rewards + reward_amount
                                > u128::MAX <==> r is Err)
                        &&& (forall|k: int|
                            0 <= k < old(asset_farm).rewards@.len() ==> old(
                                asset_farm).rewards@[k].token_id@ != reward_token_id@) ==> r is Ok
                        &&& r is Err ==> r->Err_0 == LendingError::Overflow
                        &&& r is Ok ==> final(self).assets@ == old(self).assets@.update(
                            i,
                            Asset { reserved: (asset.reserved - reward_amount) as u128, ..asset },
                        )
                    }
                },
            r is Ok ==> exists|k: int|
                {
                    &&& reward_at(final(asset_farm), reward_token_id@, k)
                    &&& #[trigger] final(asset_farm).rewards@[k].reward_per_day == new_reward_per_day
                    &&& final(asset_farm).rewards@[k].booster_log_base == new_booster_log_base
                    &&& final(asset_farm).block_timestamp == old(asset_farm).block_timestamp
                    &&& forall|j: int|
                        0 <= j < old(asset_farm).rewards@.len() && j != k ==> final(
                            asset_farm).rewards@[j] == old(asset_farm).rewards@[j]
                    &&& if k < old(asset_farm).rewards@.len() {
                        &&& reward_at(old(asset_farm), reward_token_id@, k)
                        &&& final(asset_farm).rewards@[k].remaining_rewards == old(
                            asset_farm,
                        ).rewards@[k].remaining_rewards + reward_amount
                        &&& final(asset_farm).rewards@[k].boosted_shares == old(
                            asset_farm,
                        ).rewards@[k].boosted_shares
                        &&& final(asset_farm).rewards@[k].reward_per_share@ == old(
                            asset_farm,
                        ).rewards@[k].reward_per_share@
                        &&& final(asset_farm).rewards@[k].token_id == old(
                            asset_farm,
                        ).rewards@[k].token_id
                        &&& final(asset_farm).rewards@.len() == old(asset_farm).rewards@.len()
                    } else {
                        &&& k == old(asset_farm).rewards@.len()
                        &&& final(asset_farm).rewards@.len() == old(asset_farm).rewards@.len() + 1
                        &&& final(asset_farm).rewards@[k].token_id == *reward_token_id
                        &&& final(asset_farm).rewards@[k].remaining_rewards == reward_amount
                        &&& final(asset_farm).rewards@[k].boosted_shares == 0
                        &&& final(asset_farm).rewards@[k].reward_per_share@ == 0
                    }
                },
            r is Err ==> final(self).assets@ == old(self).assets@ && *final(asset_farm) == *old(
                asset_farm),
            unique_rewards(old(asset_farm)) ==> unique_rewards(final(asset_farm)),
    {
        if self.find_asset(farm_id.get_token_id()).is_none() {
            return Err(LendingError::AssetNotFound);
        }
        let i = match self.find_asset(reward_token_id) {
            Some(i) => i,
            None => {
                return Err(LendingError::AssetNotFound);
            },
        };
        let mut reward_asset = self.assets[i];
        if reward_asset.reserved < reward_amount || reward_asset.available_amount() < reward_amount {
            return Err(LendingError::InsufficientBalance);
        }
        let mut k: usize = 0;
        while k < asset_farm.rewards.len() && !(asset_farm.rewards[k].token_id == *reward_token_id)
            invariant
                k <= asset_farm.rewards@.len(),
                forall|j: int| 0 <= j < k ==> asset_farm.rewards@[j].token_id@ != reward_token_id@,
            decreases asset_farm.rewards@.len() - k,
        {
            k = k + 1;
        }
        if k < asset_farm.rewards.len() {
            let current = &asset_farm.rewards[k];
            if current.remaining_rewards > u128::MAX - reward_amount {
                return Err(LendingError::Overflow);
            }
            let next = AssetFarmReward {
                token_id: current.token_id.clone(),
                reward_per_day: new_reward_per_day,
                booster_log_base: new_booster_log_base,
                remaining_rewards: current.remaining_rewards + reward_amount,
                boosted_shares: current.boosted_shares,
                reward_per_share: current.reward_per_share.duplicate(),
            };
            asset_farm.rewards.set(k, next);
        } else {
            asset_farm.rewards.push(
                AssetFarmReward {
                    token_id: reward_token_id.clone(),
                    reward_per_day: new_reward_per_day,
                    booster_log_base: new_booster_log_base,
                    remaining_rewards: reward_amount,
                    boosted_shares: 0,
                    reward_per_share: BigDecimal::zero(),
                },
            );
        }
        reward_asset.reserved = reward_asset.reserved - reward_amount;
        self.assets.set(i, reward_asset);
        proof {
            assert(reward_at(asset_farm, reward_token_id@, k as int));
            assert(asset_farm.rewards@[k as int].reward_per_day == new_reward_per_day);
        }
        Ok(())
    }
}

} // verus!
