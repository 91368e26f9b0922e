//! Re-settling an account's farms: claiming what each farm owes, crediting
//! it, and moving the account's boosted shares to its current holdings.
use vstd::prelude::*;

use crate::account::Account;
use crate::actions::{same_positions, Contract};
use crate::error::LendingError;
use crate::executor::{positions, Positions};
use crate::actions::with_pools;
use crate::asset::Asset;
use crate::farm::{
    claimable, claims_spec, entry_at, entry_index, farm_follows, follows, entry_follows,
    internal_account_apply_farm, internal_account_farm_claim, lemma_entry_unique,
    lemma_first_entry, no_entry, resettled, unique_rewards, unique_tokens, AccountFarm, AssetFarm,
    FarmId,
};
use crate::pool::{amount_to_shares_spec, Pool};
use crate::liquidation::{copy_assets, index_of, lemma_index_cases};
use crate::pool::shares_to_amount_spec;

verus! {

/// The raw shares a farm pays for: the supplied and collateral shares of its
/// token for a supply farm, the debt shares for a borrow farm; zero for an
/// unlisted token.
pub open spec fn raw_shares(ids: Seq<String>, p: Positions, farm_id: FarmId) -> nat {
    match farm_id {
        FarmId::Supplied(t) => match index_of(ids, t@) {
            Some(i) => (p.0[i] + p.1[i]) as nat,
            None => 0,
        },
        FarmId::Borrowed(t) => match index_of(ids, t@) {
            Some(i) => p.2[i] as nat,
            None => 0,
        },
    }
}

/// The boosted shares of an account with `raw` shares and `extra` shares
/// from its booster; none without shares.
pub open spec fn boosted_for(raw: nat, extra: u128) -> nat {
    if raw > 0 {
        raw + extra as nat
    } else {
        0
    }
}

/// The boosted shares the account held in the farm's reward `token`.
pub open spec fn held_boosted(account_farm: &AccountFarm, token: Seq<char>) -> nat {
    match entry_index(account_farm, token) {
        Some(k) => account_farm.rewards@[k].1.boosted_shares as nat,
        None => 0,
    }
}

/// How many entries the account's farm holds after settling against the
/// farm at `ts`: as many as before where it was already settled then, else
/// one per reward of the farm.
pub open spec fn claimed_len(af: &AccountFarm, farm: &AssetFarm, ts: u64) -> nat {
    if af.block_timestamp == ts {
        af.rewards@.len()
    } else {
        farm.rewards@.len()
    }
}

/// The token of entry `j` after settling.
pub open spec fn claimed_token(af: &AccountFarm, farm: &AssetFarm, ts: u64, j: int) -> Seq<char> {
    if af.block_timestamp == ts {
        af.rewards@[j].0@
    } else {
        farm.rewards@[j].token_id@
    }
}

/// The boosted shares of entry `j` after settling: carried over from the
/// account's entry for the token, or none.
pub open spec fn claimed_held(af: &AccountFarm, farm: &AssetFarm, ts: u64, j: int) -> nat {
    if af.block_timestamp == ts {
        af.rewards@[j].1.boosted_shares as nat
    } else {
        held_boosted(af, farm.rewards@[j].token_id@)
    }
}

/// `claimed` is `af` settled against `farm` at `ts`.
pub open spec fn claimed_from(claimed: &AccountFarm, af: &AccountFarm, farm: &AssetFarm, ts: u64) -> bool {
    &&& claimed.block_timestamp == ts
    &&& claimed.rewards@.len() == claimed_len(af, farm, ts)
    &&& forall|j: int|
        0 <= j < claimed_len(af, farm, ts) ==> (#[trigger] claimed.rewards@[j]).0@
            == claimed_token(af, farm, ts, j) && claimed.rewards@[j].1.boosted_shares
            == claimed_held(af, farm, ts, j)
}

/// What settling `af` against `farm` at `ts` pays: nothing where it was
/// already settled then.
pub open spec fn farm_paid(af: &AccountFarm, farm: &AssetFarm, ts: u64) -> Seq<(String, u128)> {
    if af.block_timestamp == ts {
        seq![]
    } else {
        claims_spec(af, farm, farm.rewards@.len())
    }
}

/// What settling the first `n` farms pays, farm by farm.
pub open spec fn all_paid(
    afs: Seq<AccountFarm>,
    farms: Seq<(FarmId, AssetFarm)>,
    ts: u64,
    n: nat,
) -> Seq<(String, u128)>
    decreases n,
{
    if n == 0 {
        seq![]
    } else {
        all_paid(afs, farms, ts, (n - 1) as nat) + farm_paid(&afs[n - 1], &farms[n - 1].1, ts)
    }
}

/// Crediting `amount` of `token` to the supplied shares `sup`, as
/// `internal_deposit` does.
pub open spec fn deposit_step(
    ids: Seq<String>,
    assets: Seq<Asset>,
    sup: Seq<u128>,
    token: Seq<char>,
    amount: u128,
) -> Result<(Seq<Asset>, Seq<u128>), LendingError> {
    match index_of(ids, token) {
        None => Err(LendingError::AssetNotFound),
        Some(i) => {
            let asset = assets[i];
            let s = amount_to_shares_spec(asset.supplied, amount as nat, false);
            if s > u128::MAX || asset.supplied.shares + s > u128::MAX || asset.supplied.balance
                + asset.reserved + amount > u128::MAX || sup[i] + s > u128::MAX {
                Err(LendingError::Overflow)
            } else {
                Ok(
                    (
                        with_pools(
                            assets,
                            i,
                            Pool {
                                shares: (asset.supplied.shares + s) as u128,
                                balance: (asset.supplied.balance + amount) as u128,
                            },
                            asset.borrowed,
                        ),
                        sup.update(i, (sup[i] + s) as u128),
                    ),
                )
            }
        },
    }
}

/// The first `k` credits, in order; the first refusal ends them.
pub open spec fn deposits_spec(
    ids: Seq<String>,
    assets: Seq<Asset>,
    sup: Seq<u128>,
    paid: Seq<(String, u128)>,
    k: nat,
) -> Result<(Seq<Asset>, Seq<u128>), LendingError>
    decreases k,
{
    if k == 0 {
        Ok((assets, sup))
    } else {
        match deposits_spec(ids, assets, sup, paid, (k - 1) as nat) {
            Err(e) => Err(e),
            Ok(d) => deposit_step(ids, d.0, d.1, paid[k - 1].0@, paid[k - 1].1),
        }
    }
}

/// A refused credit ends the credits.
pub proof fn lemma_deposits_stop(
    ids: Seq<String>,
    assets: Seq<Asset>,
    sup: Seq<u128>,
    paid: Seq<(String, u128)>,
    k: nat,
    m: nat,
)
    requires
        k <= m,
        deposits_spec(ids, assets, sup, paid, k) is Err,
    ensures
        deposits_spec(ids, assets, sup, paid, m) is Err,
    decreases m,
{
    if m > k {
        lemma_deposits_stop(ids, assets, sup, paid, k, (m - 1) as nat);
    }
}

/// Whether reward `j` of the farm can take the account's new boosted shares.
pub open spec fn reward_fits(
    af: &AccountFarm,
    farm: &AssetFarm,
    ts: u64,
    raw: nat,
    extra: Seq<u128>,
    j: int,
) -> bool {
    let held = claimed_held(af, farm, ts, j);
    let total = farm.rewards@[j].boosted_shares;
    &&& boosted_for(raw, extra[j]) <= u128::MAX
    &&& claimed_token(af, farm, ts, j) == farm.rewards@[j].token_id@
    &&& held <= total
    &&& total - held + boosted_for(raw, extra[j]) <= u128::MAX
}

/// Whether the account's settled farm follows the farm's rewards and every
/// reward can take its new boosted shares.
pub open spec fn fits_all(af: &AccountFarm, farm: &AssetFarm, ts: u64, raw: nat, extra: Seq<u128>) -> bool {
    &&& raw <= u128::MAX
    &&& extra.len() == farm.rewards@.len()
    &&& claimed_len(af, farm, ts) == farm.rewards@.len()
    &&& forall|j: int|
        0 <= j < farm.rewards@.len() ==> #[trigger] reward_fits(af, farm, ts, raw, extra, j)
}

/// The extra shares of each farm as sequences.
pub open spec fn extra_of(extra: Seq<Vec<u128>>, f: int) -> Seq<u128> {
    extra[f]@
}

/// Whether re-settling the account in the farms succeeds: every credit is
/// taken, and every farm can take the account's new boosted shares.
pub open spec fn settle_ok(
    ids: Seq<String>,
    assets: Seq<Asset>,
    p: Positions,
    afs: Seq<AccountFarm>,
    farms: Seq<(FarmId, AssetFarm)>,
    extra: Seq<Vec<u128>>,
    ts: u64,
) -> bool {
    let paid = all_paid(afs, farms, ts, farms.len());
    match deposits_spec(ids, assets, p.0, paid, paid.len()) {
        Err(_) => false,
        Ok(d) => forall|f: int|
            0 <= f < farms.len() ==> #[trigger] fits_all(
                &afs[f],
                &farms[f].1,
                ts,
                raw_shares(ids, (d.1, p.1, p.2), farms[f].0),
                extra_of(extra, f),
            ),
    }
}

/// Reward `j` and entry `j` after re-settlement: the total trades what the
/// account held for its new boosted shares, and an account with shares is
/// anchored at the reward per share with those boosted shares.
pub open spec fn reward_settled(
    before: &AssetFarm,
    after: &AssetFarm,
    af: &AccountFarm,
    new_af: &AccountFarm,
    ts: u64,
    raw: nat,
    extra: Seq<u128>,
    j: int,
) -> bool {
    &&& after.rewards@[j].boosted_shares == before.rewards@[j].boosted_shares - claimed_held(
        af,
        before,
        ts,
        j,
    ) + boosted_for(raw, extra[j])
    &&& after.rewards@[j].token_id == before.rewards@[j].token_id
    &&& after.rewards@[j].reward_per_share@ == before.rewards@[j].reward_per_share@
    &&& after.rewards@[j].remaining_rewards == before.rewards@[j].remaining_rewards
    &&& raw > 0 ==> {
        &&& new_af.rewards@[j].0@ == before.rewards@[j].token_id@
        &&& new_af.rewards@[j].1.boosted_shares == boosted_for(raw, extra[j])
        &&& new_af.rewards@[j].1.last_reward_per_share@ == before.rewards@[j].reward_per_share@
    }
}

/// A farm and the account's farm after re-settlement at `ts`: the account's
/// farm is emptied exactly when it has no raw shares.
pub open spec fn farm_settled(
    before: &AssetFarm,
    after: &AssetFarm,
    af: &AccountFarm,
    new_af: &AccountFarm,
    ts: u64,
    raw: nat,
    extra: Seq<u128>,
) -> bool {
    &&& after.rewards@.len() == before.rewards@.len()
    &&& new_af.block_timestamp == ts
    &&& raw == 0 ==> new_af.rewards@.len() == 0
    &&& raw > 0 ==> new_af.rewards@.len() == before.rewards@.len()
    &&& forall|j: int|
        0 <= j < before.rewards@.len() ==> #[trigger] reward_settled(
            before,
            after,
            af,
            new_af,
            ts,
            raw,
            extra,
            j,
        )
}

/// The boosted shares for each reward of a farm.
pub open spec fn boosted_list(raw: nat, extra: Seq<u128>, b: Seq<u128>) -> bool {
    &&& b.len() == extra.len()
    &&& forall|j: int| 0 <= j < b.len() ==> #[trigger] b[j] == boosted_for(raw, extra[j])
}

/// What an account held in a farm's reward is what its first entry for the
/// reward's token held, or nothing.
pub proof fn lemma_held_boosted(account_farm: &AccountFarm, token: Seq<char>)
    ensures
        forall|k: int|
            entry_at(account_farm, token, k) ==> held_boosted(account_farm, token)
                == account_farm.rewards@[k].1.boosted_shares,
        !(exists|k: int| entry_at(account_farm, token, k)) ==> no_entry(account_farm, token)
            && held_boosted(account_farm, token) == 0,
{
    assert forall|k: int| entry_at(account_farm, token, k) implies held_boosted(account_farm, token)
        == account_farm.rewards@[k].1.boosted_shares by {
        lemma_entry_unique(account_farm, token, k);
    }
    if !(exists|k: int| entry_at(account_farm, token, k)) {
        assert forall|k: int| 0 <= k < account_farm.rewards@.len() implies account_farm.rewards@[k].0@
            != token by {
            if account_farm.rewards@[k].0@ == token {
                lemma_first_entry(account_farm, token, k);
            }
        }
    }
}

impl Contract {
    /// The balance of the booster token the account supplies, collateral
    /// included; zero where the token is not listed.
    pub fn booster_balance(&self, account: &Account, booster_token_id: &String) -> (r: u128)
        requires
            self.wf(),
            self.fits(account),
        ensures
            r == match index_of(self.asset_ids@, booster_token_id@) {
                Some(i) => shares_to_amount_spec(
                    self.assets@[i].supplied,
                    (account.supplied@[i] + account.collateral@[i]) as nat,
                    false,
                ),
                None => 0,
            },
    {
        proof {
            lemma_index_cases(self, booster_token_id@);
        }
        match self.find_asset(booster_token_id) {
            Some(i) => {
                let pool = self.assets[i].supplied;
                let s = account.supplied[i];
                let c = account.collateral[i];
                if s > u128::MAX - c {
                    pool.balance
                } else {
                    pool.shares_to_amount(s + c, false)
                }
            },
            None => 0,
        }
    }

    /// The raw shares the farm pays the account for, where they fit.
    pub fn raw_farm_shares(&self, account: &Account, farm_id: &FarmId) -> (r: Option<u128>)
        requires
            self.wf(),
            self.fits(account),
        ensures
            match r {
                Some(x) => x == raw_shares(self.asset_ids@, positions(account), *farm_id),
                None => raw_shares(self.asset_ids@, positions(account), *farm_id) > u128::MAX,
            },
    {
        proof {
            lemma_index_cases(self, farm_id.token_id_spec()@);
        }
        match farm_id {
            FarmId::Supplied(t) => match self.find_asset(t) {
                Some(i) => {
                    let s = account.supplied[i];
                    let c = account.collateral[i];
                    if s > u128::MAX - c {
                        None
                    } else {
                        Some(s + c)
                    }
                },
                None => Some(0),
            },
            FarmId::Borrowed(t) => match self.find_asset(t) {
                Some(i) => Some(account.borrowed[i]),
                None => Some(0),
            },
        }
    }

    /// Credits the claimed rewards, then works out each farm's raw shares
    /// and boosted shares and checks that every farm can take them.
    fn settle_prepare(
        &mut self,
        account: &mut Account,
        farms: &Vec<(FarmId, AssetFarm)>,
        account_farms: &Vec<AccountFarm>,
        claimed: &Vec<AccountFarm>,
        paid: &Vec<(String, u128)>,
        extra_shares: &Vec<Vec<u128>>,
        ts: u64,
    ) -> (r: Result<(Vec<Vec<u128>>, Vec<u128>), LendingError>)
        requires
            old(self).wf(),
            old(self).fits(old(account)),
            claimed@.len() == farms@.len(),
            account_farms@.len() == farms@.len(),
            extra_shares@.len() == farms@.len(),
            forall|f: int|
                0 <= f < farms@.len() ==> #[trigger] claimed_from(
                    &claimed@[f],
                    &account_farms@[f],
                    &farms@[f].1,
                    ts,
                ),
            paid@ == all_paid(account_farms@, farms@, ts, farms@.len()),
        ensures
            final(self).wf(),
            final(self).fits(final(account)),
            final(self).asset_ids@ == old(self).asset_ids@,
            final(account).account_id == old(account).account_id,
            final(account).collateral@ == old(account).collateral@,
            final(account).borrowed@ == old(account).borrowed@,
            r is Ok <==> settle_ok(
                old(self).asset_ids@,
                old(self).assets@,
                positions(old(account)),
                account_farms@,
                farms@,
                extra_shares@,
                ts,
            ),
            r is Ok ==> {
                let d = deposits_spec(
                    old(self).asset_ids@,
                    old(self).assets@,
                    old(account).supplied@,
                    paid@,
                    paid@.len(),
                )->Ok_0;
                let boosted = r->Ok_0.0;
                let raws = r->Ok_0.1;
                &&& final(self).assets@ == d.0
                &&& final(account).supplied@ == d.1
                &&& boosted@.len() == farms@.len()
                &&& raws@.len() == farms@.len()
                &&& forall|f: int|
                    0 <= f < farms@.len() ==> {
                        &&& #[trigger] raws@[f] == raw_shares(
                            old(self).asset_ids@,
                            positions(final(account)),
                            farms@[f].0,
                        )
                        &&& boosted_list(raws@[f] as nat, extra_shares@[f]@, boosted@[f]@)
                        &&& follows(&farms@[f].1, &claimed@[f], boosted@[f]@)
                    }
            },
    {
        let mut q: usize = 0;
        while q < paid.len()
            invariant
                self.wf(),
                self.fits(account),
                self.asset_ids@ == old(self).asset_ids@,
                account.account_id == old(account).account_id,
                account.collateral@ == old(account).collateral@,
                account.borrowed@ == old(account).borrowed@,
                q <= paid@.len(),
                paid@ == all_paid(account_farms@, farms@, ts, farms@.len()),
                deposits_spec(
                    old(self).asset_ids@,
                    old(self).assets@,
                    old(account).supplied@,
                    paid@,
                    q as nat,
                ) == Ok::<(Seq<Asset>, Seq<u128>), LendingError>((self.assets@, account.supplied@)),
            decreases paid@.len() - q,
        {
            proof {
                lemma_index_cases(self, paid@[q as int].0@);
            }
            match self.internal_deposit(account, &paid[q].0, paid[q].1) {
                Ok(_) => {},
                Err(e) => {
                    proof {
                        lemma_deposits_stop(
                            old(self).asset_ids@,
                            old(self).assets@,
                            old(account).supplied@,
                            paid@,
                            (q + 1) as nat,
                            paid@.len(),
                        );
                    }
                    return Err(e);
                },
            }
            q = q + 1;
        }
        let ghost d = (self.assets@, account.supplied@);
        assert(positions(account) == (d.1, old(account).collateral@, old(account).borrowed@));
        let n = farms.len();
        let mut boosted: Vec<Vec<u128>> = Vec::new();
        let mut raws: Vec<u128> = Vec::new();
        let mut f: usize = 0;
        while f < n
            invariant
                self.wf(),
                self.fits(account),
                self.asset_ids@ == old(self).asset_ids@,
                account.account_id == old(account).account_id,
                account.collateral@ == old(account).collateral@,
                account.borrowed@ == old(account).borrowed@,
                self.assets@ == d.0,
                account.supplied@ == d.1,
                positions(account) == (d.1, old(account).collateral@, old(account).borrowed@),
                deposits_spec(
                    old(self).asset_ids@,
                    old(self).assets@,
                    old(account).supplied@,
                    paid@,
                    paid@.len(),
                ) == Ok::<(Seq<Asset>, Seq<u128>), LendingError>(d),
                n == farms@.len(),
                paid@ == all_paid(account_farms@, farms@, ts, farms@.len()),
                claimed@.len() == n,
                account_farms@.len() == n,
                extra_shares@.len() == n,
                forall|t: int|
                    0 <= t < n ==> #[trigger] claimed_from(
                        &claimed@[t],
                        &account_farms@[t],
                        &farms@[t].1,
                        ts,
                    ),
                f <= n,
                boosted@.len() == f,
                raws@.len() == f,
                forall|t: int|
                    0 <= t < f ==> {
                        &&& #[trigger] raws@[t] == raw_shares(
                            old(self).asset_ids@,
                            positions(account),
                            farms@[t].0,
                        )
                        &&& boosted_list(raws@[t] as nat, extra_shares@[t]@, boosted@[t]@)
                        &&& follows(&farms@[t].1, &claimed@[t], boosted@[t]@)
                        &&& fits_all(
                            &account_farms@[t],
                            &farms@[t].1,
                            ts,
                            raws@[t] as nat,
                            extra_of(extra_shares@, t),
                        )
                    },
            decreases n - f,
        {
            let raw = match self.raw_farm_shares(account, &farms[f].0) {
                Some(x) => x,
                None => {
                    proof {
                        let rw = raw_shares(
                            old(self).asset_ids@,
                            (d.1, positions(old(account)).1, positions(old(account)).2),
                            farms@[f as int].0,
                        );
                        assert(!fits_all(
                            &account_farms@[f as int],
                            &farms@[f as int].1,
                            ts,
                            rw,
                            extra_of(extra_shares@, f as int),
                        ));
                    }
                    return Err(LendingError::Overflow);
                },
            };
            let extra = &extra_shares[f];
            let ghost af = account_farms@[f as int];
            let ghost farm = farms@[f as int].1;
            let mut b: Vec<u128> = Vec::new();
            let mut j: usize = 0;
            while j < extra.len()
                invariant
                    self.wf(),
                    self.fits(account),
                    self.asset_ids@ == old(self).asset_ids@,
                    account.account_id == old(account).account_id,
                    account.collateral@ == old(account).collateral@,
                    account.borrowed@ == old(account).borrowed@,
                    j <= extra@.len(),
                    b@.len() == j,
                    forall|t: int| 0 <= t < j ==> #[trigger] b@[t] == boosted_for(raw as nat, extra@[t]),
                    deposits_spec(
                        old(self).asset_ids@,
                        old(self).assets@,
                        old(account).supplied@,
                        paid@,
                        paid@.len(),
                    ) == Ok::<(Seq<Asset>, Seq<u128>), LendingError>(d),
                    positions(account) == (d.1, old(account).collateral@, old(account).borrowed@),
                    f < n,
                    n == farms@.len(),
                    paid@ == all_paid(account_farms@, farms@, ts, farms@.len()),
                    extra_shares@.len() == n,
                    raw == raw_shares(old(self).asset_ids@, positions(account), farms@[f as int].0),
                    af == account_farms@[f as int],
                    farm == farms@[f as int].1,
                    extra@ == extra_shares@[f as int]@,
                decreases extra@.len() - j,
            {
                if raw > 0 {
                    if raw > u128::MAX - extra[j] {
                        proof {
                            if fits_all(&af, &farm, ts, raw as nat, extra@) {
                                assert(reward_fits(&af, &farm, ts, raw as nat, extra@, j as int));
                            }
                            let rw = raw_shares(
                                old(self).asset_ids@,
                                (d.1, positions(old(account)).1, positions(old(account)).2),
                                farms@[f as int].0,
                            );
                            assert(rw == raw as nat);
                            assert(extra_of(extra_shares@, f as int) == extra@);
                            assert(!fits_all(
                                &account_farms@[f as int],
                                &farms@[f as int].1,
                                ts,
                                rw,
                                extra_of(extra_shares@, f as int),
                            ));
                        }
                        return Err(LendingError::Overflow);
                    }
                    b.push(raw + extra[j]);
                } else {
                    b.push(0);
                }
                j = j + 1;
            }
            proof {
                assert(boosted_list(raw as nat, extra@, b@));
                let c = claimed@[f as int];
                assert(claimed_from(&c, &af, &farm, ts));
                if fits_all(&af, &farm, ts, raw as nat, extra@) {
                    assert forall|t: int| 0 <= t < farm.rewards@.len() implies #[trigger] entry_follows(
                        &farm,
                        &c,
                        b@,
                        t,
                    ) by {
                        assert(reward_fits(&af, &farm, ts, raw as nat, extra@, t));
                        assert(c.rewards@[t].0@ == claimed_token(&af, &farm, ts, t));
                    }
                }
            }
            if !farm_follows(&farms[f].1, &claimed[f], &b) {
                proof {
                    let rw = raw_shares(
                        old(self).asset_ids@,
                        (d.1, positions(old(account)).1, positions(old(account)).2),
                        farms@[f as int].0,
                    );
                    assert(rw == raw as nat);
                    assert(extra_of(extra_shares@, f as int) == extra@);
                    assert(!fits_all(
                        &account_farms@[f as int],
                        &farms@[f as int].1,
                        ts,
                        rw,
                        extra_of(extra_shares@, f as int),
                    ));
                    let pa = all_paid(account_farms@, farms@, ts, farms@.len());
                    assert(pa == paid@);
                    assert(positions(old(account)).0 == old(account).supplied@);
                    assert(deposits_spec(old(self).asset_ids@, old(self).assets@, positions(old(account)).0, pa, pa.len()) == Ok::<(Seq<Asset>, Seq<u128>), LendingError>(d));
                    assert(!settle_ok(old(self).asset_ids@, old(self).assets@, positions(old(account)), account_farms@, farms@, extra_shares@, ts));
                }
                return Err(LendingError::InsufficientBalance);
            }
            proof {
                let c = claimed@[f as int];
                assert(claimed_from(&c, &af, &farm, ts));
                assert forall|t: int| 0 <= t < farm.rewards@.len() implies #[trigger] reward_fits(
                    &af,
                    &farm,
                    ts,
                    raw as nat,
                    extra@,
                    t,
                ) by {
                    assert(entry_follows(&farm, &c, b@, t));
                    assert(c.rewards@[t].0@ == claimed_token(&af, &farm, ts, t));
                }
                assert(fits_all(&af, &farm, ts, raw as nat, extra@));
            }
            boosted.push(b);
            raws.push(raw);
            f = f + 1;
        }
        proof {
            assert forall|t: int| 0 <= t < n implies #[trigger] fits_all(
                &account_farms@[t],
                &farms@[t].1,
                ts,
                raw_shares(old(self).asset_ids@, (d.1, old(account).collateral@, old(account).borrowed@), farms@[t].0),
                extra_of(extra_shares@, t),
            ) by {
                assert(raws@[t] == raw_shares(old(self).asset_ids@, positions(account), farms@[t].0));
            }
        }
        Ok((boosted, raws))
    }

    /// Re-settles the account in each of the given farms at
    /// `block_timestamp`: claims what each farm owes it, credits the claims
    /// to its supplied shares, and moves its boosted shares in every reward
    /// to its raw shares plus the booster's extra shares (none without raw
    /// shares); the account's farm is emptied exactly when it has no raw
    /// shares. The extra shares, one list per farm and one entry per reward,
    /// come from the booster curve. Returns the supply farm of each reward
    /// token credited, which the credit touched. A refused settlement changes
    /// nothing.
    pub fn internal_account_apply_affected_farms(
        &mut self,
        account: &mut Account,
        farms: &mut Vec<(FarmId, AssetFarm)>,
        account_farms: &mut Vec<AccountFarm>,
        extra_shares: &Vec<Vec<u128>>,
        block_timestamp: u64,
    ) -> (r: Result<Vec<FarmId>, LendingError>)
        requires
            old(self).wf(),
            old(self).fits(old(account)),
            old(account_farms)@.len() == old(farms)@.len(),
            extra_shares@.len() == old(farms)@.len(),
            forall|t: int|
                0 <= t < old(farms)@.len() ==> #[trigger] claimable(
                    &old(account_farms)@[t],
                    &old(farms)@[t].1,
                ),
        ensures
            final(self).wf(),
            final(self).fits(final(account)),
            final(self).asset_ids@ == old(self).asset_ids@,
            final(account).account_id == old(account).account_id,
            r is Ok <==> settle_ok(
                old(self).asset_ids@,
                old(self).assets@,
                positions(old(account)),
                old(account_farms)@,
                old(farms)@,
                extra_shares@,
                block_timestamp,
            ),
            r is Err ==> final(self).assets@ == old(self).assets@ && same_positions(
                final(account),
                old(account),
            ) && final(farms)@ == old(farms)@ && final(account_farms)@ == old(account_farms)@,
            r is Ok ==> {
                let paid = all_paid(
                    old(account_farms)@,
                    old(farms)@,
                    block_timestamp,
                    old(farms)@.len(),
                );
                let d = deposits_spec(
                    old(self).asset_ids@,
                    old(self).assets@,
                    old(account).supplied@,
                    paid,
                    paid.len(),
                )->Ok_0;
                &&& final(self).assets@ == d.0
                &&& final(account).supplied@ == d.1
                &&& r->Ok_0@ == paid.map_values(|p: (String, u128)| FarmId::Supplied(p.0))
                &&& final(account).collateral@ == old(account).collateral@
                &&& final(account).borrowed@ == old(account).borrowed@
                &&& final(farms)@.len() == old(farms)@.len()
                &&& final(account_farms)@.len() == old(farms)@.len()
                &&& forall|t: int|
                    0 <= t < old(farms)@.len() && unique_rewards(&old(farms)@[t].1) ==> unique_rewards(
                        &final(farms)@[t].1,
                    ) && unique_tokens(&#[trigger] final(account_farms)@[t])
                &&& forall|t: int|
                    #![trigger final(farms)@[t]]
                    0 <= t < old(farms)@.len() ==> {
                        &&& final(farms)@[t].0 == old(farms)@[t].0
                        &&& farm_settled(
                            &old(farms)@[t].1,
                            &final(farms)@[t].1,
                            &old(account_farms)@[t],
                            &final(account_farms)@[t],
                            block_timestamp,
                            raw_shares(
                                old(self).asset_ids@,
                                positions(final(account)),
                                old(farms)@[t].0,
                            ),
                            extra_shares@[t]@,
                        )
                    }
            },
    {
        let n = farms.len();
        let mut claimed: Vec<AccountFarm> = Vec::new();
        let mut paid: Vec<(String, u128)> = Vec::new();
        let mut f: usize = 0;
        while f < n
            invariant
                n == farms@.len(),
                n == old(farms)@.len(),
                farms@ == old(farms)@,
                account_farms@ == old(account_farms)@,
                account_farms@.len() == n,
                f <= n,
                claimed@.len() == f,
                forall|t: int|
                    0 <= t < old(farms)@.len() ==> #[trigger] claimable(
                        &old(account_farms)@[t],
                        &old(farms)@[t].1,
                    ),
                forall|t: int|
                    0 <= t < f ==> #[trigger] claimed_from(
                        &claimed@[t],
                        &old(account_farms)@[t],
                        &old(farms)@[t].1,
                        block_timestamp,
                    ),
                paid@ == all_paid(old(account_farms)@, old(farms)@, block_timestamp, f as nat),
            decreases n - f,
        {
            assert(claimable(&old(account_farms)@[f as int], &old(farms)@[f as int].1));
            let (af, p) = internal_account_farm_claim(&account_farms[f], &farms[f].1, block_timestamp);
            proof {
                let old_af = old(account_farms)@[f as int];
                let farm = old(farms)@[f as int].1;
                if old_af.block_timestamp != block_timestamp {
                    assert forall|j: int| 0 <= j < farm.rewards@.len() implies (#[trigger] af.rewards@[j]).1.boosted_shares
                        == held_boosted(&old_af, farm.rewards@[j].token_id@) by {
                        lemma_held_boosted(&old_af, farm.rewards@[j].token_id@);
                    }
                }
                assert(claimed_from(&af, &old_af, &farm, block_timestamp));
                assert(p@ == farm_paid(&old_af, &farm, block_timestamp));
            }
            let ghost before = claimed@;
            claimed.push(af);
            assert(forall|t: int| 0 <= t < f ==> claimed@[t] == before[t]);
            let ghost paid0 = paid@;
            let mut q: usize = 0;
            while q < p.len()
                invariant
                    q <= p@.len(),
                    paid@ == paid0 + p@.subrange(0, q as int),
                decreases p@.len() - q,
            {
                paid.push((p[q].0.clone(), p[q].1));
                q = q + 1;
                assert(paid@ =~= paid0 + p@.subrange(0, q as int));
            }
            assert(p@.subrange(0, p@.len() as int) =~= p@);
            f = f + 1;
        }
        let saved_assets = copy_assets(&self.assets);
        let saved_account = account.duplicate();
        let prepared = self.settle_prepare(
            account,
            farms,
            account_farms,
            &claimed,
            &paid,
            extra_shares,
            block_timestamp,
        );
        let (boosted, raws) = match prepared {
            Ok(x) => x,
            Err(e) => {
                self.assets = saved_assets;
                *account = saved_account;
                return Err(e);
            },
        };
        let ghost claimed0 = claimed@;
        let mut f: usize = 0;
        while f < n
            invariant
                n == farms@.len(),
                n == old(farms)@.len(),
                claimed@.len() == n,
                claimed0.len() == n,
                boosted@.len() == n,
                raws@.len() == n,
                extra_shares@.len() == n,
                f <= n,
                forall|t: int|
                    0 <= t < n ==> #[trigger] claimed_from(
                        &claimed0[t],
                        &old(account_farms)@[t],
                        &old(farms)@[t].1,
                        block_timestamp,
                    ),
                forall|t: int|
                    0 <= t < n ==> {
                        &&& #[trigger] raws@[t] == raw_shares(
                            old(self).asset_ids@,
                            positions(account),
                            old(farms)@[t].0,
                        )
                        &&& boosted_list(raws@[t] as nat, extra_shares@[t]@, boosted@[t]@)
                        &&& follows(&old(farms)@[t].1, &claimed0[t], boosted@[t]@)
                    },
                forall|t: int|
                    #![trigger farms@[t]]
                    f <= t < n ==> farms@[t] == old(farms)@[t],
                forall|t: int|
                    #![trigger claimed@[t]]
                    f <= t < n ==> claimed@[t] == claimed0[t],
                forall|t: int|
                    #![trigger farms@[t]]
                    0 <= t < f ==> {
                        &&& farms@[t].0 == old(farms)@[t].0
                        &&& farm_settled(
                            &old(farms)@[t].1,
                            &farms@[t].1,
                            &old(account_farms)@[t],
                            &claimed@[t],
                            block_timestamp,
                            raws@[t] as nat,
                            extra_shares@[t]@,
                        )
                    },
            decreases n - f,
        {
            let mut entry = (
                FarmId::Supplied(String::new()),
                AssetFarm { block_timestamp: 0, rewards: Vec::new() },
            );
            let ghost farms_before = farms@;
            let ghost claimed_before = claimed@;
            farms.set_and_swap(f, &mut entry);
            let mut af = AccountFarm { block_timestamp: 0, rewards: Vec::new() };
            claimed.set_and_swap(f, &mut af);
            assert(entry == farms_before[f as int]);
            assert(farms_before[f as int] == old(farms)@[f as int]);
            assert(af == claimed_before[f as int]);
            assert(claimed_before[f as int] == claimed0[f as int]);
            let ghost before_farm = entry.1;
            let ghost before_af = af;
            let ghost old_af = old(account_farms)@[f as int];
            let ghost raw = raws@[f as int] as nat;
            let ghost ex = extra_shares@[f as int]@;
            assert(claimed_from(&claimed0[f as int], &old_af, &old(farms)@[f as int].1, block_timestamp));
            assert(raws@[f as int] == raw_shares(old(self).asset_ids@, positions(account), old(farms)@[f as int].0));
            let applied = internal_account_apply_farm(&mut entry.1, &mut af, &boosted[f]);
            let ghost af1 = af;
            if raws[f] == 0 {
                af.rewards = Vec::new();
            }
            af.block_timestamp = block_timestamp;
            proof {
                assert(applied is Ok);
                assert forall|j: int| 0 <= j < before_farm.rewards@.len() implies #[trigger] reward_settled(
                    &before_farm,
                    &entry.1,
                    &old_af,
                    &af,
                    block_timestamp,
                    raw,
                    ex,
                    j,
                ) by {
                    assert(entry_follows(&before_farm, &before_af, boosted@[f as int]@, j));
                    assert(before_af.rewards@[j] == claimed0[f as int].rewards@[j]);
                    assert(boosted@[f as int]@[j] == boosted_for(raw, ex[j]));
                    assert(resettled(
                        &before_farm.rewards@[j],
                        &entry.1.rewards@[j],
                        &before_af.rewards@[j].1,
                        &af1.rewards@[j].1,
                        boosted@[f as int]@[j],
                    ));
                    assert(claimed0[f as int].rewards@[j].1.boosted_shares == claimed_held(
                        &old_af,
                        &before_farm,
                        block_timestamp,
                        j,
                    ));
                    assert(entry.1.rewards@[j].boosted_shares == before_farm.rewards@[j].boosted_shares
                        - claimed_held(&old_af, &before_farm, block_timestamp, j) + boosted_for(
                        raw,
                        ex[j],
                    ));
                    if raw > 0 {
                        assert(af.rewards@ == af1.rewards@);
                        assert(af1.rewards@[j].0 == before_af.rewards@[j].0);
                    }
                }
                assert(farm_settled(&before_farm, &entry.1, &old_af, &af, block_timestamp, raw, ex));
            }
            farms.set_and_swap(f, &mut entry);
            claimed.set_and_swap(f, &mut af);
            f = f + 1;
        }
        proof {
            assert forall|t: int| 0 <= t < n implies #[trigger] raws@[t] == raw_shares(
                old(self).asset_ids@,
                positions(account),
                old(farms)@[t].0,
            ) && farm_settled(
                &old(farms)@[t].1,
                &farms@[t].1,
                &old(account_farms)@[t],
                &claimed@[t],
                block_timestamp,
                raws@[t] as nat,
                extra_shares@[t]@,
            ) by {
                assert(farms@[t].0 == old(farms)@[t].0);
            }
        }
        proof {
            assert forall|t: int|
                0 <= t < n && unique_rewards(&old(farms)@[t].1) implies unique_rewards(&farms@[t].1)
                && unique_tokens(&#[trigger] claimed@[t]) by {
                assert(farms@[t].0 == old(farms)@[t].0);
                let before = old(farms)@[t].1;
                let raw = raws@[t] as nat;
                let ex = extra_shares@[t]@;
                assert forall|a: int, b: int|
                    0 <= a < b < farms@[t].1.rewards@.len() implies farms@[t].1.rewards@[a].token_id@
                    != farms@[t].1.rewards@[b].token_id@ by {
                    assert(reward_settled(&before, &farms@[t].1, &old(account_farms)@[t], &claimed@[t], block_timestamp, raw, ex, a));
                    assert(reward_settled(&before, &farms@[t].1, &old(account_farms)@[t], &claimed@[t], block_timestamp, raw, ex, b));
                }
                assert forall|a: int, b: int|
                    0 <= a < b < claimed@[t].rewards@.len() implies claimed@[t].rewards@[a].0@
                    != claimed@[t].rewards@[b].0@ by {
                    assert(raw > 0);
                    assert(reward_settled(&before, &farms@[t].1, &old(account_farms)@[t], &claimed@[t], block_timestamp, raw, ex, a));
                    assert(reward_settled(&before, &farms@[t].1, &old(account_farms)@[t], &claimed@[t], block_timestamp, raw, ex, b));
                }
            }
        }
        *account_farms = claimed;
        let mut credited: Vec<FarmId> = Vec::new();
        let mut q: usize = 0;
        while q < paid.len()
            invariant
                q <= paid@.len(),
                credited@ == paid@.take(q as int).map_values(
                    |p: (String, u128)| FarmId::Supplied(p.0),
                ),
            decreases paid@.len() - q,
        {
            credited.push(FarmId::Supplied(paid[q].0.clone()));
            q = q + 1;
            assert(credited@ =~= paid@.take(q as int).map_values(
                |p: (String, u128)| FarmId::Supplied(p.0),
            ));
        }
        assert(paid@.take(q as int) =~= paid@);
        Ok(credited)
    }
}

} // verus!
