//! Farm reward accumulators: rewards released over time and shared out
//! pro rata over boosted shares.
use vstd::prelude::*;

use crate::big_decimal::{div_spec, BigDecimal, BIG_DIVISOR, HALF_DIVISOR};
use crate::bignum::{nat_div, nat_from_u128, nat_le, nat_mul, nat_to_u128};
use crate::error::LendingError;

verus! {

/// Nanoseconds in a day.
pub const NANOS_PER_DAY: u64 = 86_400_000_000_000;

/// What a farm pays for: supplying or borrowing one token.
#[derive(Clone, Debug, PartialEq, Eq, Hash)]
pub enum FarmId {
    Supplied(String),
    Borrowed(String),
}

impl FarmId {
    /// The token the farm is about.
    pub open spec fn token_id_spec(&self) -> String {
        match self {
            FarmId::Supplied(token_id) => *token_id,
            FarmId::Borrowed(token_id) => *token_id,
        }
    }

    pub fn get_token_id(&self) -> (r: &String)
        ensures
            *r == self.token_id_spec(),
    {
        match self {
            FarmId::Supplied(token_id) => token_id,
            FarmId::Borrowed(token_id) => token_id,
        }
    }
}

/// One reward token of a farm.
pub struct AssetFarmReward {
    /// The reward token.
    pub token_id: String,
    /// Rewards released per day.
    pub reward_per_day: u128,
    /// The base of the booster's logarithm, decimals included.
    pub booster_log_base: u128,
    /// Rewards not yet released.
    pub remaining_rewards: u128,
    /// The boosted shares of all accounts in the farm.
    pub boosted_shares: u128,
    /// Rewards released so far per boosted share.
    pub reward_per_share: BigDecimal,
}

/// A farm: its reward tokens and when they were last advanced.
pub struct AssetFarm {
    pub block_timestamp: u64,
    pub rewards: Vec<AssetFarmReward>,
}

/// Versions of the stored farm.
pub enum VAssetFarm {
    Current(AssetFarm),
}

/// An account's position in one reward token of a farm.
pub struct AccountFarmReward {
    pub boosted_shares: u128,
    /// The farm's reward per share when the account last settled.
    pub last_reward_per_share: BigDecimal,
}

/// An account's position in a farm, by reward token.
pub struct AccountFarm {
    pub block_timestamp: u64,
    pub rewards: Vec<(String, AccountFarmReward)>,
}

/// Versions of the stored account farm.
pub enum VAccountFarm {
    Current(AccountFarm),
}

/// An account's farm as shown to readers.
pub struct AccountFarmView {
    pub farm_id: FarmId,
    pub rewards: Vec<AccountFarmRewardView>,
}

/// One reward token of an account's farm as shown to readers.
pub struct AccountFarmRewardView {
    pub asset_farm_reward: AssetFarmReward,
    pub boosted_shares: u128,
    pub unclaimed_amount: u128,
}

/// The farm pays each reward token at most once.
pub open spec fn unique_rewards(farm: &AssetFarm) -> bool {
    forall|i: int, j: int|
        0 <= i < j < farm.rewards@.len() ==> farm.rewards@[i].token_id@
            != farm.rewards@[j].token_id@
}

/// The account's farm holds at most one entry per reward token.
pub open spec fn unique_tokens(account_farm: &AccountFarm) -> bool {
    forall|i: int, j: int|
        0 <= i < j < account_farm.rewards@.len() ==> account_farm.rewards@[i].0@
            != account_farm.rewards@[j].0@
}

/// The rewards that `time_diff` nanoseconds release: `reward_per_day` pro
/// rata, never more than what remains.
pub open spec fn released_spec(reward_per_day: nat, time_diff: nat, remaining: nat) -> nat {
    let due = (reward_per_day * time_diff) / (NANOS_PER_DAY as nat);
    if remaining <= due {
        remaining
    } else {
        due
    }
}

/// `new` is `old` advanced by `time_diff` nanoseconds: a farm with boosted
/// shares releases rewards and raises the reward per share by them.
pub open spec fn reward_advanced(old: &AssetFarmReward, new: &AssetFarmReward, time_diff: nat) -> bool {
    &&& new.token_id == old.token_id
    &&& new.reward_per_day == old.reward_per_day
    &&& new.booster_log_base == old.booster_log_base
    &&& new.boosted_shares == old.boosted_shares
    &&& if old.boosted_shares == 0 || time_diff == 0 {
        new.remaining_rewards == old.remaining_rewards && new.reward_per_share@
            == old.reward_per_share@
    } else {
        let released = released_spec(
            old.reward_per_day as nat,
            time_diff,
            old.remaining_rewards as nat,
        );
        &&& new.remaining_rewards == old.remaining_rewards - released
        &&& new.reward_per_share@ == old.reward_per_share@ + div_spec(
            released * (BIG_DIVISOR as nat),
            (old.boosted_shares * BIG_DIVISOR) as nat,
        )
    }
}

/// The rewards released over `time_diff` nanoseconds.
fn released_rewards(reward_per_day: u128, time_diff: u64, remaining: u128) -> (r: u128)
    ensures
        r == released_spec(reward_per_day as nat, time_diff as nat, remaining as nat),
{
    let p = nat_mul(&nat_from_u128(reward_per_day), &nat_from_u128(time_diff as u128));
    let due = nat_div(&p, &nat_from_u128(NANOS_PER_DAY as u128));
    let cap = nat_from_u128(remaining);
    if nat_le(&cap, &due) {
        remaining
    } else {
        nat_to_u128(&due)
    }
}

impl AssetFarmReward {
    /// The reward advanced by `time_diff` nanoseconds.
    fn advanced(&self, time_diff: u64) -> (r: AssetFarmReward)
        ensures
            reward_advanced(self, &r, time_diff as nat),
    {
        if self.boosted_shares == 0 || time_diff == 0 {
            return AssetFarmReward {
                token_id: self.token_id.clone(),
                reward_per_day: self.reward_per_day,
                booster_log_base: self.booster_log_base,
                remaining_rewards: self.remaining_rewards,
                boosted_shares: self.boosted_shares,
                reward_per_share: self.reward_per_share.duplicate(),
            };
        }
        let acquired = released_rewards(self.reward_per_day, time_diff, self.remaining_rewards);
        let per_share = BigDecimal::from_u128(acquired).div(
            &BigDecimal::from_u128(self.boosted_shares),
        );
        AssetFarmReward {
            token_id: self.token_id.clone(),
            reward_per_day: self.reward_per_day,
            booster_log_base: self.booster_log_base,
            remaining_rewards: self.remaining_rewards - acquired,
            boosted_shares: self.boosted_shares,
            reward_per_share: self.reward_per_share.add(&per_share),
        }
    }
}

impl AssetFarm {
    /// Advances every reward to `block_timestamp`.
    pub fn update(&mut self, block_timestamp: u64)
        requires
            block_timestamp >= old(self).block_timestamp,
        ensures
            final(self).block_timestamp == block_timestamp,
            final(self).rewards@.len() == old(self).rewards@.len(),
            unique_rewards(old(self)) ==> unique_rewards(final(self)),
            forall|i: int|
                0 <= i < old(self).rewards@.len() ==> reward_advanced(
                    &old(self).rewards@[i],
                    &final(self).rewards@[i],
                    (block_timestamp - old(self).block_timestamp) as nat,
                ),
    {
        let time_diff = block_timestamp - self.block_timestamp;
        self.block_timestamp = block_timestamp;
        let mut i: usize = 0;
        while i < self.rewards.len()
            invariant
                self.rewards@.len() == old(self).rewards@.len(),
                self.block_timestamp == block_timestamp,
                time_diff == block_timestamp - old(self).block_timestamp,
                forall|j: int|
                    0 <= j < i ==> reward_advanced(
                        &old(self).rewards@[j],
                        #[trigger] &self.rewards@[j],
                        time_diff as nat,
                    ),
                forall|j: int| i <= j < self.rewards@.len() ==> self.rewards@[j] == old(self).rewards@[j],
            decreases self.rewards@.len() - i,
        {
            let next = self.rewards[i].advanced(time_diff);
            self.rewards.set(i, next);
            i = i + 1;
        }
    }
}

impl AccountFarmReward {
    /// The rewards earned since the account last settled.
    pub open spec fn unclaimed_spec(&self, reward_per_share: nat) -> nat {
        (((reward_per_share - self.last_reward_per_share@) * self.boosted_shares + HALF_DIVISOR) / (
        BIG_DIVISOR as int)) as nat
    }

    /// The rewards earned at `reward_per_share` since the account last settled.
    pub fn unclaimed_amount(&self, reward_per_share: &BigDecimal) -> (r: u128)
        requires
            reward_per_share@ >= self.last_reward_per_share@,
            self.unclaimed_spec(reward_per_share@) <= u128::MAX,
        ensures
            r == self.unclaimed_spec(reward_per_share@),
    {
        reward_per_share.sub(&self.last_reward_per_share).round_mul_u128(self.boosted_shares)
    }
}

/// Moves an account's boosted shares in a farm reward to `new_boosted_shares`,
/// settling it at the farm's current reward per share; the farm's total
/// changes by the same amount.
pub fn settle_boosted_shares(
    asset_farm_reward: &mut AssetFarmReward,
    account_farm_reward: &mut AccountFarmReward,
    new_boosted_shares: u128,
)
    requires
        old(account_farm_reward).boosted_shares <= old(asset_farm_reward).boosted_shares,
        old(asset_farm_reward).boosted_shares - old(account_farm_reward).boosted_shares
            + new_boosted_shares <= u128::MAX,
    ensures
        final(asset_farm_reward).boosted_shares == old(asset_farm_reward).boosted_shares
            - old(account_farm_reward).boosted_shares + new_boosted_shares,
        final(account_farm_reward).boosted_shares == new_boosted_shares,
        final(account_farm_reward).last_reward_per_share@
            == old(asset_farm_reward).reward_per_share@,
        final(asset_farm_reward).token_id == old(asset_farm_reward).token_id,
        final(asset_farm_reward).reward_per_share@ == old(asset_farm_reward).reward_per_share@,
        final(asset_farm_reward).remaining_rewards == old(asset_farm_reward).remaining_rewards,
{
    asset_farm_reward.boosted_shares = asset_farm_reward.boosted_shares
        - account_farm_reward.boosted_shares;
    account_farm_reward.boosted_shares = new_boosted_shares;
    account_farm_reward.last_reward_per_share = asset_farm_reward.reward_per_share.duplicate();
    asset_farm_reward.boosted_shares = asset_farm_reward.boosted_shares + new_boosted_shares;
}

/// Whether `farm` holds `token` at index `k`, and at no earlier index.
pub open spec fn entry_at(farm: &AccountFarm, token: Seq<char>, k: int) -> bool {
    &&& 0 <= k < farm.rewards@.len()
    &&& farm.rewards@[k].0@ == token
    &&& forall|j: int| 0 <= j < k ==> farm.rewards@[j].0@ != token
}

/// Whether `farm` holds no entry for `token`.
pub open spec fn no_entry(farm: &AccountFarm, token: Seq<char>) -> bool {
    forall|j: int| 0 <= j < farm.rewards@.len() ==> farm.rewards@[j].0@ != token
}

/// Whether an account's farm can settle against `asset_farm`: the
/// accumulators never went backwards, and every amount due fits.
pub open spec fn claimable(account_farm: &AccountFarm, asset_farm: &AssetFarm) -> bool {
    forall|j: int, k: int|
        0 <= j < asset_farm.rewards@.len() && entry_at(
            account_farm,
            asset_farm.rewards@[j].token_id@,
            k,
        ) ==> {
            let rps = asset_farm.rewards@[j].reward_per_share@;
            let entry = account_farm.rewards@[k].1;
            &&& rps >= entry.last_reward_per_share@
            &&& entry.unclaimed_spec(rps) <= u128::MAX
        }
}

/// The index of the entry for `token`, if the account's farm holds one.
pub open spec fn entry_index(farm: &AccountFarm, token: Seq<char>) -> Option<int> {
    if exists|k: int| entry_at(farm, token, k) {
        Some(choose|k: int| entry_at(farm, token, k))
    } else {
        None
    }
}

/// The payments due over the first `n` rewards of the farm: for each reward
/// token the account holds, what it earned since it last settled, where
/// that is not zero.
pub open spec fn claims_spec(account_farm: &AccountFarm, asset_farm: &AssetFarm, n: nat) -> Seq<
    (String, u128),
>
    decreases n,
{
    if n == 0 {
        seq![]
    } else {
        let prev = claims_spec(account_farm, asset_farm, (n - 1) as nat);
        let reward = asset_farm.rewards@[n - 1];
        match entry_index(account_farm, reward.token_id@) {
            Some(k) => {
                let amount = account_farm.rewards@[k].1.unclaimed_spec(reward.reward_per_share@);
                if amount > 0 {
                    prev.push((reward.token_id, amount as u128))
                } else {
                    prev
                }
            },
            None => prev,
        }
    }
}

/// A token that appears among the entries has a first appearance.
pub proof fn lemma_first_entry(farm: &AccountFarm, token: Seq<char>, k: int)
    requires
        0 <= k < farm.rewards@.len(),
        farm.rewards@[k].0@ == token,
    ensures
        exists|c: int| entry_at(farm, token, c),
    decreases k,
{
    if forall|d: int| 0 <= d < k ==> farm.rewards@[d].0@ != token {
        assert(entry_at(farm, token, k));
    } else {
        let d = choose|d: int| 0 <= d < k && farm.rewards@[d].0@ == token;
        lemma_first_entry(farm, token, d);
    }
}

/// An entry is found at one index only.
pub proof fn lemma_entry_unique(farm: &AccountFarm, token: Seq<char>, k: int)
    requires
        entry_at(farm, token, k),
    ensures
        entry_index(farm, token) == Some(k),
{
    let c = choose|c: int| entry_at(farm, token, c);
    assert(entry_at(farm, token, c));
    if c < k {
        assert(farm.rewards@[c].0@ != token);
    } else if c > k {
        assert(farm.rewards@[k].0@ != token);
    }
}

/// Whether an account's farm can settle against `asset_farm`.
pub fn is_claimable(account_farm: &AccountFarm, asset_farm: &AssetFarm) -> (r: bool)
    ensures
        r == claimable(account_farm, asset_farm),
{
    let mut j: usize = 0;
    while j < asset_farm.rewards.len()
        invariant
            j <= asset_farm.rewards@.len(),
            forall|t: int, k: int|
                0 <= t < j && entry_at(account_farm, asset_farm.rewards@[t].token_id@, k) ==> {
                    let rps = asset_farm.rewards@[t].reward_per_share@;
                    let entry = account_farm.rewards@[k].1;
                    &&& rps >= entry.last_reward_per_share@
                    &&& entry.unclaimed_spec(rps) <= u128::MAX
                },
        decreases asset_farm.rewards@.len() - j,
    {
        let reward = &asset_farm.rewards[j];
        match find_entry(account_farm, &reward.token_id) {
            Some(k) => {
                let entry = &account_farm.rewards[k].1;
                proof {
                    lemma_entry_unique(account_farm, reward.token_id@, k as int);
                    assert forall|k2: int| entry_at(account_farm, reward.token_id@, k2) implies k2 == k by {
                        lemma_entry_unique(account_farm, reward.token_id@, k2);
                    }
                }
                if !entry.last_reward_per_share.le(&reward.reward_per_share) {
                    return false;
                }
                let diff = reward.reward_per_share.sub(&entry.last_reward_per_share);
                if !diff.round_mul_fits(entry.boosted_shares) {
                    return false;
                }
            },
            None => {},
        }
        j = j + 1;
    }
    true
}

/// The index of the entry for `token`, if any.
pub fn find_entry(farm: &AccountFarm, token: &String) -> (r: Option<usize>)
    ensures
        match r {
            Some(k) => entry_at(farm, token@, k as int),
            None => no_entry(farm, token@),
        },
{
    let mut k: usize = 0;
    while k < farm.rewards.len()
        invariant
            k <= farm.rewards@.len(),
            forall|j: int| 0 <= j < k ==> farm.rewards@[j].0@ != token@,
        decreases farm.rewards@.len() - k,
    {
        if farm.rewards[k].0 == *token {
            return Some(k);
        }
        k = k + 1;
    }
    None
}

/// Settles an account's farm at `block_timestamp`: each reward token of the
/// farm pays what it earned since the account last settled, and the account
/// is re-anchored at the current reward per share with its boosted shares
/// kept (zero for a token it did not hold). Tokens the farm no longer pays
/// are dropped. Nothing happens where the farm was already settled at this
/// timestamp.
pub fn internal_account_farm_claim(
    account_farm: &AccountFarm,
    asset_farm: &AssetFarm,
    block_timestamp: u64,
) -> (r: (AccountFarm, Vec<(String, u128)>))
    requires
        claimable(account_farm, asset_farm),
    ensures
        unique_rewards(asset_farm) && unique_tokens(account_farm) ==> unique_tokens(&r.0),
        account_farm.block_timestamp == block_timestamp ==> r.1@.len() == 0
            && r.0.block_timestamp == block_timestamp && r.0.rewards@.len()
            == account_farm.rewards@.len() && forall|k: int|
            0 <= k < account_farm.rewards@.len() ==> r.0.rewards@[k].0 == account_farm.rewards@[k].0
                && r.0.rewards@[k].1.boosted_shares == account_farm.rewards@[k].1.boosted_shares
                && r.0.rewards@[k].1.last_reward_per_share@
                == account_farm.rewards@[k].1.last_reward_per_share@,
        account_farm.block_timestamp != block_timestamp ==> {
            &&& r.0.block_timestamp == block_timestamp
            &&& r.0.rewards@.len() == asset_farm.rewards@.len()
            &&& forall|j: int|
                0 <= j < asset_farm.rewards@.len() ==> {
                    let token = asset_farm.rewards@[j].token_id;
                    let rps = asset_farm.rewards@[j].reward_per_share@;
                    &&& (#[trigger] r.0.rewards@[j]).0 == token
                    &&& r.0.rewards@[j].1.last_reward_per_share@ == rps
                    &&& no_entry(account_farm, token@) ==> r.0.rewards@[j].1.boosted_shares == 0
                    &&& forall|k: int|
                        entry_at(account_farm, token@, k) ==> r.0.rewards@[j].1.boosted_shares
                            == account_farm.rewards@[k].1.boosted_shares
                }
            &&& r.1@ == claims_spec(account_farm, asset_farm, asset_farm.rewards@.len())
        },
{
    if account_farm.block_timestamp == block_timestamp {
        let mut kept: Vec<(String, AccountFarmReward)> = Vec::new();
        let mut k: usize = 0;
        while k < account_farm.rewards.len()
            invariant
                k <= account_farm.rewards@.len(),
                kept@.len() == k,
                forall|t: int|
                    0 <= t < k ==> (#[trigger] kept@[t]).0 == account_farm.rewards@[t].0
                        && kept@[t].1.boosted_shares == account_farm.rewards@[t].1.boosted_shares
                        && kept@[t].1.last_reward_per_share@
                        == account_farm.rewards@[t].1.last_reward_per_share@,
            decreases account_farm.rewards@.len() - k,
        {
            let entry = &account_farm.rewards[k];
            kept.push(
                (
                    entry.0.clone(),
                    AccountFarmReward {
                        boosted_shares: entry.1.boosted_shares,
                        last_reward_per_share: entry.1.last_reward_per_share.duplicate(),
                    },
                ),
            );
            k = k + 1;
        }
        return (AccountFarm { block_timestamp, rewards: kept }, Vec::new());
    }
    let mut rewards: Vec<(String, AccountFarmReward)> = Vec::new();
    let mut new_rewards: Vec<(String, u128)> = Vec::new();
    let mut j: usize = 0;
    while j < asset_farm.rewards.len()
        invariant
            claimable(account_farm, asset_farm),
            j <= asset_farm.rewards@.len(),
            rewards@.len() == j,
            forall|i: int|
                0 <= i < j ==> {
                    let token = asset_farm.rewards@[i].token_id;
                    &&& (#[trigger] rewards@[i]).0 == token
                    &&& rewards@[i].1.last_reward_per_share@
                        == asset_farm.rewards@[i].reward_per_share@
                    &&& no_entry(account_farm, token@) ==> rewards@[i].1.boosted_shares == 0
                    &&& forall|k: int|
                        entry_at(account_farm, token@, k) ==> rewards@[i].1.boosted_shares
                            == account_farm.rewards@[k].1.boosted_shares
                },
            new_rewards@ == claims_spec(account_farm, asset_farm, j as nat),
        decreases asset_farm.rewards@.len() - j,
    {
        let reward = &asset_farm.rewards[j];
        let found = find_entry(account_farm, &reward.token_id);
        proof {
            match found {
                Some(k) => lemma_entry_unique(account_farm, reward.token_id@, k as int),
                None => {},
            }
        }
        let mut boosted_shares: u128 = 0;
        if let Some(k) = found {
            let entry = &account_farm.rewards[k].1;
            let amount = entry.unclaimed_amount(&reward.reward_per_share);
            boosted_shares = entry.boosted_shares;
            if amount > 0 {
                new_rewards.push((reward.token_id.clone(), amount));
            }
        }
        rewards.push(
            (
                reward.token_id.clone(),
                AccountFarmReward {
                    boosted_shares,
                    last_reward_per_share: reward.reward_per_share.duplicate(),
                },
            ),
        );
        j = j + 1;
    }
    (AccountFarm { block_timestamp, rewards }, new_rewards)
}

/// Whether a farm total can trade an account's `own` boosted shares for `new`.
pub open spec fn fits_boosted(total: u128, own: u128, new: u128) -> bool {
    own <= total && total - own + new <= u128::MAX
}

/// The farm reward and the account's entry after re-settling the account at
/// `new` boosted shares: the total trades the account's old shares for the
/// new ones, and the account is anchored at the reward per share.
pub open spec fn resettled(
    old_reward: &AssetFarmReward,
    new_reward: &AssetFarmReward,
    old_entry: &AccountFarmReward,
    new_entry: &AccountFarmReward,
    new: u128,
) -> bool {
    &&& new_reward.boosted_shares == old_reward.boosted_shares - old_entry.boosted_shares + new
    &&& new_reward.token_id == old_reward.token_id
    &&& new_reward.reward_per_share@ == old_reward.reward_per_share@
    &&& new_reward.remaining_rewards == old_reward.remaining_rewards
    &&& new_entry.boosted_shares == new
    &&& new_entry.last_reward_per_share@ == old_reward.reward_per_share@
}

/// Whether the account's entries follow the farm's rewards one for one,
/// and every total can take the new boosted shares.
pub open spec fn follows(asset_farm: &AssetFarm, account_farm: &AccountFarm, boosted: Seq<u128>) -> bool {
    &&& boosted.len() == asset_farm.rewards@.len()
    &&& account_farm.rewards@.len() == asset_farm.rewards@.len()
    &&& forall|t: int|
        0 <= t < asset_farm.rewards@.len() ==> #[trigger] entry_follows(
            asset_farm,
            account_farm,
            boosted,
            t,
        )
}

/// The account's entry at `t` is for the farm's reward at `t`, and that
/// reward's total can take the new boosted shares.
pub open spec fn entry_follows(
    asset_farm: &AssetFarm,
    account_farm: &AccountFarm,
    boosted: Seq<u128>,
    t: int,
) -> bool {
    &&& account_farm.rewards@[t].0@ == asset_farm.rewards@[t].token_id@
    &&& fits_boosted(
        asset_farm.rewards@[t].boosted_shares,
        account_farm.rewards@[t].1.boosted_shares,
        boosted[t],
    )
}

/// Whether the account's entries follow the farm and every total can take
/// the given boosted shares.
pub fn farm_follows(asset_farm: &AssetFarm, account_farm: &AccountFarm, boosted_shares: &Vec<u128>) -> (r:
    bool)
    ensures
        r == follows(asset_farm, account_farm, boosted_shares@),
{
    let n = asset_farm.rewards.len();
    if boosted_shares.len() != n || account_farm.rewards.len() != n {
        return false;
    }
    let mut k: usize = 0;
    while k < n
        invariant
            n == asset_farm.rewards@.len(),
            n == account_farm.rewards@.len(),
            n == boosted_shares@.len(),
            k <= n,
            forall|t: int|
                0 <= t < k ==> #[trigger] entry_follows(
                    asset_farm,
                    account_farm,
                    boosted_shares@,
                    t,
                ),
        decreases n - k,
    {
        let own = account_farm.rewards[k].1.boosted_shares;
        let total = asset_farm.rewards[k].boosted_shares;
        if !(account_farm.rewards[k].0 == asset_farm.rewards[k].token_id) || own > total || total
            - own > u128::MAX - boosted_shares[k] {
            assert(!entry_follows(asset_farm, account_farm, boosted_shares@, k as int));
            return false;
        }
        assert(entry_follows(asset_farm, account_farm, boosted_shares@, k as int));
        k = k + 1;
    }
    true
}

/// Re-settles an account in every reward of a farm at the given boosted
/// shares, one per reward; the account's entries must follow the farm's
/// rewards, as a claim leaves them. Each farm total changes by the
/// account's change. Refused, unchanged, where an entry does not follow
/// the farm, or a total would leave the integer range.
pub fn internal_account_apply_farm(
    asset_farm: &mut AssetFarm,
    account_farm: &mut AccountFarm,
    boosted_shares: &Vec<u128>,
) -> (r: Result<(), LendingError>)
    ensures
        r is Ok ==> {
            &&& final(asset_farm).rewards@.len() == old(asset_farm).rewards@.len()
            &&& final(account_farm).rewards@.len() == old(account_farm).rewards@.len()
            &&& forall|j: int|
                0 <= j < old(asset_farm).rewards@.len() ==> #[trigger] resettled(
                    &old(asset_farm).rewards@[j],
                    &final(asset_farm).rewards@[j],
                    &old(account_farm).rewards@[j].1,
                    &final(account_farm).rewards@[j].1,
                    boosted_shares@[j],
                )
            &&& forall|j: int|
                0 <= j < old(account_farm).rewards@.len() ==> (#[trigger] final(
                    account_farm).rewards@[j]).0 == old(account_farm).rewards@[j].0
        },
        r is Ok <==> follows(old(asset_farm), old(account_farm), boosted_shares@),
        r is Ok ==> (unique_rewards(old(asset_farm)) ==> unique_rewards(final(asset_farm))) && (
        unique_tokens(old(account_farm)) ==> unique_tokens(final(account_farm))),
        r is Err ==> r->Err_0 == LendingError::InsufficientBalance || r->Err_0
            == LendingError::Overflow,
        r is Err ==> *final(asset_farm) == *old(asset_farm) && *final(account_farm) == *old(
            account_farm),
{
    let n = asset_farm.rewards.len();
    if boosted_shares.len() != n || account_farm.rewards.len() != n {
        return Err(LendingError::InsufficientBalance);
    }
    let mut k: usize = 0;
    while k < n
        invariant
            n == asset_farm.rewards@.len(),
            n == account_farm.rewards@.len(),
            n == boosted_shares@.len(),
            k <= n,
            *asset_farm == *old(asset_farm),
            *account_farm == *old(account_farm),
            forall|t: int|
                0 <= t < k ==> #[trigger] entry_follows(
                    asset_farm,
                    account_farm,
                    boosted_shares@,
                    t,
                ),
        decreases n - k,
    {
        let own = account_farm.rewards[k].1.boosted_shares;
        let total = asset_farm.rewards[k].boosted_shares;
        if !(account_farm.rewards[k].0 == asset_farm.rewards[k].token_id) || own > total {
            assert(!entry_follows(asset_farm, account_farm, boosted_shares@, k as int));
            return Err(LendingError::InsufficientBalance);
        }
        if total - own > u128::MAX - boosted_shares[k] {
            assert(!entry_follows(asset_farm, account_farm, boosted_shares@, k as int));
            return Err(LendingError::Overflow);
        }
        assert(entry_follows(asset_farm, account_farm, boosted_shares@, k as int));
        k = k + 1;
    }
    assert(follows(old(asset_farm), old(account_farm), boosted_shares@));
    let mut j: usize = 0;
    while j < n
        invariant
            n == asset_farm.rewards@.len(),
            n == account_farm.rewards@.len(),
            n == boosted_shares@.len(),
            n == old(asset_farm).rewards@.len(),
            n == old(account_farm).rewards@.len(),
            j <= n,
            forall|t: int|
                j <= t < n ==> asset_farm.rewards@[t] == old(asset_farm).rewards@[t]
                    && account_farm.rewards@[t] == old(account_farm).rewards@[t],
            follows(old(asset_farm), old(account_farm), boosted_shares@),
            forall|t: int|
                0 <= t < j ==> #[trigger] resettled(
                    &old(asset_farm).rewards@[t],
                    &asset_farm.rewards@[t],
                    &old(account_farm).rewards@[t].1,
                    &account_farm.rewards@[t].1,
                    boosted_shares@[t],
                ),
            forall|t: int|
                0 <= t < j ==> (#[trigger] account_farm.rewards@[t]).0 == old(
                    account_farm).rewards@[t].0,
        decreases n - j,
    {
        let reward = &asset_farm.rewards[j];
        let entry = &account_farm.rewards[j];
        assert(entry_follows(old(asset_farm), old(account_farm), boosted_shares@, j as int));
        let next_reward = AssetFarmReward {
            token_id: reward.token_id.clone(),
            reward_per_day: reward.reward_per_day,
            booster_log_base: reward.booster_log_base,
            remaining_rewards: reward.remaining_rewards,
            boosted_shares: reward.boosted_shares - entry.1.boosted_shares + boosted_shares[j],
            reward_per_share: reward.reward_per_share.duplicate(),
        };
        let next_entry = (
            entry.0.clone(),
            AccountFarmReward {
                boosted_shares: boosted_shares[j],
                last_reward_per_share: reward.reward_per_share.duplicate(),
            },
        );
        asset_farm.rewards.set(j, next_reward);
        account_farm.rewards.set(j, next_entry);
        j = j + 1;
    }
    proof {
        assert forall|a: int, b: int|
            0 <= a < b < n && unique_rewards(old(asset_farm)) implies asset_farm.rewards@[a].token_id@
            != asset_farm.rewards@[b].token_id@ by {
            assert(resettled(
                &old(asset_farm).rewards@[a],
                &asset_farm.rewards@[a],
                &old(account_farm).rewards@[a].1,
                &account_farm.rewards@[a].1,
                boosted_shares@[a],
            ));
            assert(resettled(
                &old(asset_farm).rewards@[b],
                &asset_farm.rewards@[b],
                &old(account_farm).rewards@[b].1,
                &account_farm.rewards@[b].1,
                boosted_shares@[b],
            ));
        }
        assert forall|a: int, b: int|
            0 <= a < b < n && unique_tokens(old(account_farm)) implies account_farm.rewards@[a].0@
            != account_farm.rewards@[b].0@ by {
            assert(account_farm.rewards@[a].0 == old(account_farm).rewards@[a].0);
            assert(account_farm.rewards@[b].0 == old(account_farm).rewards@[b].0);
        }
    }
    Ok(())
}

} // verus!
