//! Read views of an account: balances converted from shares.
use vstd::prelude::*;

use crate::account::Account;
use crate::actions::Contract;
use crate::asset::Asset;
use crate::farm::{
    claimable, entry_at, entry_index, find_entry, lemma_entry_unique, AccountFarm,
    AccountFarmRewardView, AccountFarmView, AssetFarm, AssetFarmReward, FarmId,
};
use crate::farming::lemma_held_boosted;
use crate::pool::shares_to_amount_spec;

verus! {

/// One position of an account as shown to readers.
pub struct AssetView {
    pub token_id: String,
    pub balance: u128,
    pub shares: u128,
}

/// An account's positions as shown to readers.
pub struct AccountDetailedView {
    pub account_id: String,
    /// Supplied positions not used as collateral.
    pub supplied: Vec<AssetView>,
    pub collateral: Vec<AssetView>,
    pub borrowed: Vec<AssetView>,
    /// The account's farms, with what each reward owes it.
    pub farms: Vec<AccountFarmView>,
}

/// The balance that `shares` stand for: supplied shares rounded down, debt
/// shares rounded up.
pub open spec fn view_balance(asset: Asset, shares: nat, debt: bool) -> nat {
    if debt {
        shares_to_amount_spec(asset.borrowed, shares, true)
    } else {
        shares_to_amount_spec(asset.supplied, shares, false)
    }
}

/// The views of the non-zero positions among the first `n` assets, in
/// asset order.
pub open spec fn views_spec(
    ids: Seq<String>,
    assets: Seq<Asset>,
    shares: Seq<u128>,
    debt: bool,
    n: nat,
) -> Seq<(String, nat, nat)>
    decreases n,
{
    if n == 0 {
        seq![]
    } else {
        let prev = views_spec(ids, assets, shares, debt, (n - 1) as nat);
        let i = n - 1;
        if shares[i] > 0 {
            prev.push((ids[i], view_balance(assets[i], shares[i] as nat, debt), shares[i] as nat))
        } else {
            prev
        }
    }
}

/// The views as plain values.
pub open spec fn plain_views(v: Seq<AssetView>) -> Seq<(String, nat, nat)> {
    v.map_values(|a: AssetView| (a.token_id, a.balance as nat, a.shares as nat))
}

/// What the account has earned in a farm reward and not yet claimed: by its
/// first entry for the reward's token, nothing without one.
pub open spec fn unclaimed_in(account_farm: &AccountFarm, reward: &AssetFarmReward) -> nat {
    match entry_index(account_farm, reward.token_id@) {
        Some(k) => account_farm.rewards@[k].1.unclaimed_spec(reward.reward_per_share@),
        None => 0,
    }
}

/// The boosted shares the account holds in a farm reward.
pub open spec fn boosted_in(account_farm: &AccountFarm, reward: &AssetFarmReward) -> nat {
    match entry_index(account_farm, reward.token_id@) {
        Some(k) => account_farm.rewards@[k].1.boosted_shares as nat,
        None => 0,
    }
}

/// `view` shows the account's farm `farm_id`: each reward with the
/// account's boosted shares and unclaimed amount.
pub open spec fn farm_view_of(
    view: &AccountFarmView,
    farm_id: FarmId,
    asset_farm: &AssetFarm,
    account_farm: &AccountFarm,
) -> bool {
    &&& view.farm_id == farm_id
    &&& view.rewards@.len() == asset_farm.rewards@.len()
    &&& forall|j: int|
        0 <= j < asset_farm.rewards@.len() ==> {
            &&& (#[trigger] view.rewards@[j]).asset_farm_reward.token_id
                == asset_farm.rewards@[j].token_id
            &&& view.rewards@[j].asset_farm_reward.remaining_rewards
                == asset_farm.rewards@[j].remaining_rewards
            &&& view.rewards@[j].boosted_shares == boosted_in(account_farm, &asset_farm.rewards@[j])
            &&& view.rewards@[j].unclaimed_amount == unclaimed_in(
                account_farm,
                &asset_farm.rewards@[j],
            )
        }
}

/// A second farm reward with the same values.
fn duplicate_reward(r: &AssetFarmReward) -> (d: AssetFarmReward)
    ensures
        d.token_id == r.token_id,
        d.reward_per_day == r.reward_per_day,
        d.booster_log_base == r.booster_log_base,
        d.remaining_rewards == r.remaining_rewards,
        d.boosted_shares == r.boosted_shares,
        d.reward_per_share@ == r.reward_per_share@,
{
    AssetFarmReward {
        token_id: r.token_id.clone(),
        reward_per_day: r.reward_per_day,
        booster_log_base: r.booster_log_base,
        remaining_rewards: r.remaining_rewards,
        boosted_shares: r.boosted_shares,
        reward_per_share: r.reward_per_share.duplicate(),
    }
}

/// The account's view of one farm: each reward with its boosted shares and
/// what it has earned and not claimed.
pub fn account_farm_view(farm_id: &FarmId, asset_farm: &AssetFarm, account_farm: &AccountFarm) -> (r:
    AccountFarmView)
    requires
        claimable(account_farm, asset_farm),
    ensures
        farm_view_of(&r, *farm_id, asset_farm, account_farm),
{
    let mut rewards: Vec<AccountFarmRewardView> = Vec::new();
    let mut j: usize = 0;
    while j < asset_farm.rewards.len()
        invariant
            claimable(account_farm, asset_farm),
            j <= asset_farm.rewards@.len(),
            rewards@.len() == j,
            forall|t: int|
                0 <= t < j ==> {
                    &&& (#[trigger] rewards@[t]).asset_farm_reward.token_id
                        == asset_farm.rewards@[t].token_id
                    &&& rewards@[t].asset_farm_reward.remaining_rewards
                        == asset_farm.rewards@[t].remaining_rewards
                    &&& rewards@[t].boosted_shares == boosted_in(account_farm, &asset_farm.rewards@[t])
                    &&& rewards@[t].unclaimed_amount == unclaimed_in(
                        account_farm,
                        &asset_farm.rewards@[t],
                    )
                },
        decreases asset_farm.rewards@.len() - j,
    {
        let reward = &asset_farm.rewards[j];
        let found = find_entry(account_farm, &reward.token_id);
        proof {
            lemma_held_boosted(account_farm, reward.token_id@);
            match found {
                Some(k) => lemma_entry_unique(account_farm, reward.token_id@, k as int),
                None => {
                    assert(!(exists|k: int| entry_at(account_farm, reward.token_id@, k)));
                },
            }
        }
        let (boosted, unclaimed) = match found {
            Some(k) => {
                let entry = &account_farm.rewards[k].1;
                (entry.boosted_shares, entry.unclaimed_amount(&reward.reward_per_share))
            },
            None => (0, 0),
        };
        rewards.push(
            AccountFarmRewardView {
                asset_farm_reward: duplicate_reward(reward),
                boosted_shares: boosted,
                unclaimed_amount: unclaimed,
            },
        );
        j = j + 1;
    }
    let id = match farm_id {
        FarmId::Supplied(t) => FarmId::Supplied(t.clone()),
        FarmId::Borrowed(t) => FarmId::Borrowed(t.clone()),
    };
    AccountFarmView { farm_id: id, rewards }
}

impl Contract {
    /// The views of the non-zero entries of `shares`.
    fn asset_views(&self, shares: &Vec<u128>, debt: bool) -> (r: Vec<AssetView>)
        requires
            self.wf(),
            shares@.len() == self.assets@.len(),
        ensures
            plain_views(r@) == views_spec(
                self.asset_ids@,
                self.assets@,
                shares@,
                debt,
                shares@.len() as nat,
            ),
    {
        let mut r: Vec<AssetView> = Vec::new();
        let mut i: usize = 0;
        while i < shares.len()
            invariant
                self.wf(),
                shares@.len() == self.assets@.len(),
                i <= shares@.len(),
                plain_views(r@) == views_spec(
                    self.asset_ids@,
                    self.assets@,
                    shares@,
                    debt,
                    i as nat,
                ),
            decreases shares@.len() - i,
        {
            let s = shares[i];
            if s > 0 {
                let asset = self.assets[i];
                let balance = if debt {
                    asset.borrowed.shares_to_amount(s, true)
                } else {
                    asset.supplied.shares_to_amount(s, false)
                };
                let ghost before = r@;
                r.push(AssetView { token_id: self.asset_ids[i].clone(), balance, shares: s });
                assert(plain_views(r@) =~= plain_views(before).push(
                    (self.asset_ids@[i as int], balance as nat, s as nat),
                ));
            }
            i = i + 1;
        }
        r
    }

    /// The account's positions with their balances.
    pub fn account_into_detailed_view(
        &self,
        account: &Account,
        farms: &Vec<(FarmId, AssetFarm)>,
        account_farms: &Vec<AccountFarm>,
    ) -> (r: AccountDetailedView)
        requires
            self.wf(),
            self.fits(account),
            account_farms@.len() == farms@.len(),
            forall|f: int|
                0 <= f < farms@.len() ==> #[trigger] claimable(&account_farms@[f], &farms@[f].1),
        ensures
            r.farms@.len() == farms@.len(),
            forall|f: int|
                0 <= f < farms@.len() ==> #[trigger] farm_view_of(
                    &r.farms@[f],
                    farms@[f].0,
                    &farms@[f].1,
                    &account_farms@[f],
                ),
            r.account_id == account.account_id,
            plain_views(r.supplied@) == views_spec(
                self.asset_ids@,
                self.assets@,
                account.supplied@,
                false,
                self.assets@.len(),
            ),
            plain_views(r.collateral@) == views_spec(
                self.asset_ids@,
                self.assets@,
                account.collateral@,
                false,
                self.assets@.len(),
            ),
            plain_views(r.borrowed@) == views_spec(
                self.asset_ids@,
                self.assets@,
                account.borrowed@,
                true,
                self.assets@.len(),
            ),
    {
        let mut views: Vec<AccountFarmView> = Vec::new();
        let mut f: usize = 0;
        while f < farms.len()
            invariant
                account_farms@.len() == farms@.len(),
                forall|t: int|
                    0 <= t < farms@.len() ==> #[trigger] claimable(&account_farms@[t], &farms@[t].1),
                f <= farms@.len(),
                views@.len() == f,
                forall|t: int|
                    0 <= t < f ==> #[trigger] farm_view_of(
                        &views@[t],
                        farms@[t].0,
                        &farms@[t].1,
                        &account_farms@[t],
                    ),
            decreases farms@.len() - f,
        {
            assert(claimable(&account_farms@[f as int], &farms@[f as int].1));
            views.push(account_farm_view(&farms[f].0, &farms[f].1, &account_farms[f]));
            f = f + 1;
        }
        AccountDetailedView {
            account_id: account.account_id.clone(),
            supplied: self.asset_views(&account.supplied, false),
            collateral: self.asset_views(&account.collateral, false),
            borrowed: self.asset_views(&account.borrowed, true),
            farms: views,
        }
    }
}

} // verus!
