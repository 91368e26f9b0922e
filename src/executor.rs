//! The batch executor: runs an account's actions against one price snapshot
//! and enforces the batch-level checks.
use vstd::prelude::*;

use crate::account::{count_nonzero, Account, AccountAsset, MAX_NUM_ASSETS};
use crate::actions::{
    borrow_spec, move_spec, repay_spec, same_positions, with_pools, withdraw_spec, Action,
    Contract,
};
use crate::affected::{batch_affected_farms, batch_farms, batch_targets};
use crate::asset::Asset;
use crate::farm::FarmId;
use crate::error::LendingError;
use crate::liquidation::{copy_assets, index_of, lemma_index_cases, liquidation_spec};
use crate::pool::Pool;
use crate::prices::Prices;
use crate::risk::{covers, discount_of, max_discount_spec, prices_cover};

verus! {

/// Whether an action can add collateral or debt assets to the account.
pub open spec fn adds_positions(a: Action) -> bool {
    a is IncreaseCollateral || a is Borrow
}

/// Whether an action can leave the acting account at risk.
pub open spec fn needs_risk_check(a: Action) -> bool {
    a is DecreaseCollateral || a is Borrow || a is Liquidate
}

/// Whether every account fits the registry.
pub open spec fn all_fit(c: &Contract, accounts: Seq<Account>) -> bool {
    forall|k: int| 0 <= k < accounts.len() ==> c.fits(&#[trigger] accounts[k])
}

/// An account's supplied, collateral and debt shares, by asset.
pub type Positions = (Seq<u128>, Seq<u128>, Seq<u128>);

/// The state of a batch: the markets, the acting account's positions, the
/// other accounts' positions and the withdrawals to transfer out.
pub type BatchState = (Seq<Asset>, Positions, Seq<Positions>, Seq<(String, u128)>);

/// An account's positions.
pub open spec fn positions(a: &Account) -> Positions {
    (a.supplied@, a.collateral@, a.borrowed@)
}

/// The positions of each account of a list.
pub open spec fn positions_of(s: Seq<Account>) -> Seq<Positions> {
    s.map_values(|a: Account| positions(&a))
}

/// The id of each account of a list.
pub open spec fn ids_of(s: Seq<Account>) -> Seq<Seq<char>> {
    s.map_values(|a: Account| a.account_id@)
}

/// Whether `id` first appears in `ids` at `k`.
pub open spec fn first_at(ids: Seq<Seq<char>>, id: Seq<char>, k: int) -> bool {
    &&& 0 <= k < ids.len()
    &&& ids[k] == id
    &&& forall|j: int| 0 <= j < k ==> ids[j] != id
}

/// The index of the first account with id `id`, if any.
pub open spec fn first_account(ids: Seq<Seq<char>>, id: Seq<char>) -> Option<int> {
    if exists|k: int| first_at(ids, id, k) {
        Some(choose|k: int| first_at(ids, id, k))
    } else {
        None
    }
}

/// The first appearance is unique.
pub proof fn lemma_first_account(ids: Seq<Seq<char>>, id: Seq<char>, k: int)
    requires
        first_at(ids, id, k),
    ensures
        first_account(ids, id) == Some(k),
{
    let c = choose|c: int| first_at(ids, id, c);
    assert(first_at(ids, id, c));
    if c < k {
        assert(ids[c] != id);
    } else if c > k {
        assert(ids[k] != id);
    }
}

/// The outcome of one action, as the operation it runs decides it.
pub open spec fn action_spec(
    ids: Seq<String>,
    own: Seq<char>,
    others: Seq<Seq<char>>,
    st: BatchState,
    prices: &Prices,
    action: Action,
) -> Result<BatchState, LendingError> {
    let assets = st.0;
    let sup = st.1.0;
    let col = st.1.1;
    let bor = st.1.2;
    match action {
        Action::Withdraw(aa) => match index_of(ids, aa.token_id@) {
            None => Err(LendingError::AssetNotFound),
            Some(i) => match withdraw_spec(assets[i], sup[i] as nat, &aa) {
                Err(e) => Err(e),
                Ok((s, a)) => Ok(
                    (
                        with_pools(
                            assets,
                            i,
                            Pool {
                                shares: (assets[i].supplied.shares - s) as u128,
                                balance: (assets[i].supplied.balance - a) as u128,
                            },
                            assets[i].borrowed,
                        ),
                        (sup.update(i, (sup[i] - s) as u128), col, bor),
                        st.2,
                        st.3.push((aa.token_id, a as u128)),
                    ),
                ),
            },
        },
        Action::IncreaseCollateral(aa) => match index_of(ids, aa.token_id@) {
            None => Err(LendingError::AssetNotFound),
            Some(i) => match move_spec(assets[i], sup[i] as nat, &aa) {
                Err(e) => Err(e),
                Ok((s, a)) => if col[i] + s > u128::MAX {
                    Err(LendingError::Overflow)
                } else {
                    Ok(
                        (
                            assets,
                            (
                                sup.update(i, (sup[i] - s) as u128),
                                col.update(i, (col[i] + s) as u128),
                                bor,
                            ),
                            st.2,
                            st.3,
                        ),
                    )
                },
            },
        },
        Action::DecreaseCollateral(aa) => match index_of(ids, aa.token_id@) {
            None => Err(LendingError::AssetNotFound),
            Some(i) => match move_spec(assets[i], col[i] as nat, &aa) {
                Err(e) => Err(e),
                Ok((s, a)) => if sup[i] + s > u128::MAX {
                    Err(LendingError::Overflow)
                } else {
                    Ok(
                        (
                            assets,
                            (
                                sup.update(i, (sup[i] + s) as u128),
                                col.update(i, (col[i] - s) as u128),
                                bor,
                            ),
                            st.2,
                            st.3,
                        ),
                    )
                },
            },
        },
        Action::Borrow(aa) => match index_of(ids, aa.token_id@) {
            None => Err(LendingError::AssetNotFound),
            Some(i) => match borrow_spec(assets[i], &aa) {
                Err(e) => Err(e),
                Ok((bs, ss, a)) => if bor[i] + bs > u128::MAX || sup[i] + ss > u128::MAX {
                    Err(LendingError::Overflow)
                } else {
                    Ok(
                        (
                            with_pools(
                                assets,
                                i,
                                Pool {
                                    shares: (assets[i].supplied.shares + ss) as u128,
                                    balance: (assets[i].supplied.balance + a) as u128,
                                },
                                Pool {
                                    shares: (assets[i].borrowed.shares + bs) as u128,
                                    balance: (assets[i].borrowed.balance + a) as u128,
                                },
                            ),
                            (
                                sup.update(i, (sup[i] + ss) as u128),
                                col,
                                bor.update(i, (bor[i] + bs) as u128),
                            ),
                            st.2,
                            st.3,
                        ),
                    )
                },
            },
        },
        Action::Repay(aa) => match index_of(ids, aa.token_id@) {
            None => Err(LendingError::AssetNotFound),
            Some(i) => match repay_spec(assets[i], sup[i] as nat, bor[i] as nat, &aa) {
                Err(e) => Err(e),
                Ok((bs, ss, a)) => Ok(
                    (
                        with_pools(
                            assets,
                            i,
                            Pool {
                                shares: (assets[i].supplied.shares - ss) as u128,
                                balance: (assets[i].supplied.balance - a) as u128,
                            },
                            Pool {
                                shares: (assets[i].borrowed.shares - bs) as u128,
                                balance: (assets[i].borrowed.balance - a) as u128,
                            },
                        ),
                        (sup.update(i, (sup[i] - ss) as u128), col, bor.update(
                            i,
                            (bor[i] - bs) as u128,
                        )),
                        st.2,
                        st.3,
                    ),
                ),
            },
        },
        Action::Liquidate { account_id, in_assets, out_assets } => if account_id@ == own {
            Err(LendingError::SelfLiquidation)
        } else if in_assets@.len() == 0 || out_assets@.len() == 0 {
            Err(LendingError::ZeroAmountOrShares)
        } else {
            match first_account(others, account_id@) {
                None => Err(LendingError::AccountNotFound),
                Some(k) => match liquidation_spec(
                    ids,
                    assets,
                    sup,
                    st.2[k].1,
                    st.2[k].2,
                    prices,
                    in_assets@,
                    out_assets@,
                ) {
                    Err(e) => Err(e),
                    Ok(ls) => Ok(
                        (ls.0, (ls.1, col, bor), st.2.update(k, (st.2[k].0, ls.2, ls.3)), st.3),
                    ),
                },
            }
        },
    }
}

/// The first `k` actions of a batch, in order; the first refusal ends them.
pub open spec fn batch_spec(
    ids: Seq<String>,
    own: Seq<char>,
    others: Seq<Seq<char>>,
    st: BatchState,
    prices: &Prices,
    actions: Seq<Action>,
    k: nat,
) -> Result<BatchState, LendingError>
    decreases k,
{
    if k == 0 {
        Ok(st)
    } else {
        match batch_spec(ids, own, others, st, prices, actions, (k - 1) as nat) {
            Err(e) => Err(e),
            Ok(s1) => action_spec(ids, own, others, s1, prices, actions[k - 1]),
        }
    }
}

/// A refusal among the first `k` actions ends the batch.
pub proof fn lemma_batch_stop(
    ids: Seq<String>,
    own: Seq<char>,
    others: Seq<Seq<char>>,
    st: BatchState,
    prices: &Prices,
    actions: Seq<Action>,
    k: nat,
    m: nat,
)
    requires
        k <= m,
        batch_spec(ids, own, others, st, prices, actions, k) is Err,
    ensures
        batch_spec(ids, own, others, st, prices, actions, m) == batch_spec(
            ids,
            own,
            others,
            st,
            prices,
            actions,
            k,
        ),
    decreases m,
{
    if m > k {
        lemma_batch_stop(ids, own, others, st, prices, actions, k, (m - 1) as nat);
    }
}

/// The outcome of a batch: its actions in order, then the asset-count check
/// where an action could add an asset, then the risk check where an action
/// could raise the account's risk.
pub open spec fn execute_spec(
    ids: Seq<String>,
    own: Seq<char>,
    others: Seq<Seq<char>>,
    st: BatchState,
    prices: &Prices,
    actions: Seq<Action>,
) -> Result<BatchState, LendingError> {
    match batch_spec(ids, own, others, st, prices, actions, actions.len()) {
        Err(e) => Err(e),
        Ok(s) => {
            let n = s.0.len();
            if (exists|j: int| 0 <= j < actions.len() && adds_positions(#[trigger] actions[j]))
                && count_nonzero(s.1.1) + count_nonzero(s.1.2) > MAX_NUM_ASSETS {
                Err(LendingError::TooManyAssets)
            } else if (exists|j: int|
                0 <= j < actions.len() && needs_risk_check(#[trigger] actions[j])) && !covers(
                s.1.1,
                s.1.2,
                prices,
                n,
            ) {
                Err(LendingError::MissingPrice)
            } else if (exists|j: int|
                0 <= j < actions.len() && needs_risk_check(#[trigger] actions[j])) && discount_of(
                s.0,
                s.1.1,
                s.1.2,
                prices,
            ) != 0 {
                Err(LendingError::AtRisk)
            } else {
                Ok(s)
            }
        },
    }
}

/// What a batch leaves to do: the withdrawals to transfer out, the farms of
/// the acting account to re-settle, and the farms of each liquidated account
/// to re-settle, with its id.
#[derive(Debug, PartialEq)]
pub struct BatchOutcome {
    pub transfers: Vec<(String, u128)>,
    pub affected_farms: Vec<FarmId>,
    pub liquidated_farms: Vec<(String, FarmId)>,
}

/// A copy of a list of accounts.
pub fn copy_accounts(v: &Vec<Account>) -> (r: Vec<Account>)
    ensures
        r@.len() == v@.len(),
        forall|k: int|
            0 <= k < v@.len() ==> (#[trigger] r@[k]).account_id == v@[k].account_id
                && same_positions(&r@[k], &v@[k]),
{
    let mut r: Vec<Account> = Vec::new();
    let mut i: usize = 0;
    while i < v.len()
        invariant
            i <= v@.len(),
            r@.len() == i,
            forall|k: int|
                0 <= k < i ==> (#[trigger] r@[k]).account_id == v@[k].account_id
                    && same_positions(&r@[k], &v@[k]),
        decreases v@.len() - i,
    {
        r.push(v[i].duplicate());
        i = i + 1;
    }
    r
}

impl Contract {
    /// Runs one action; the amounts withdrawn are added to `transfers`.
    #[verifier::rlimit(100)]
    fn execute_action(
        &mut self,
        account: &mut Account,
        others: &mut Vec<Account>,
        action: &Action,
        prices: &Prices,
        transfers: &mut Vec<(String, u128)>,
    ) -> (r: Result<(), LendingError>)
        requires
            old(self).wf(),
            old(self).fits(old(account)),
            all_fit(old(self), old(others)@),
        ensures
            final(self).wf(),
            final(self).fits(final(account)),
            all_fit(final(self), final(others)@),
            final(others)@.len() == old(others)@.len(),
            final(self).asset_ids@ == old(self).asset_ids@,
            final(account).account_id == old(account).account_id,
            ids_of(final(others)@) == ids_of(old(others)@),
            match action_spec(
                old(self).asset_ids@,
                old(account).account_id@,
                ids_of(old(others)@),
                (
                    old(self).assets@,
                    positions(old(account)),
                    positions_of(old(others)@),
                    old(transfers)@,
                ),
                prices,
                *action,
            ) {
                Err(e) => r is Err && r->Err_0 == e,
                Ok(st) => r is Ok && final(self).assets@ == st.0 && positions(final(account))
                    == st.1 && positions_of(final(others)@) == st.2 && final(transfers)@ == st.3,
            },
    {
        match action {
            Action::Withdraw(asset_amount) => {
                proof {
                    lemma_index_cases(self, asset_amount.token_id@);
                }
                let amount = match self.internal_withdraw(account, asset_amount) {
                    Ok(a) => a,
                    Err(e) => {
                        return Err(e);
                    },
                };
                transfers.push((asset_amount.token_id.clone(), amount));
                Ok(())
            },
            Action::IncreaseCollateral(asset_amount) => {
                proof {
                    lemma_index_cases(self, asset_amount.token_id@);
                }
                match self.internal_increase_collateral(account, asset_amount) {
                    Ok(_) => Ok(()),
                    Err(e) => Err(e),
                }
            },
            Action::DecreaseCollateral(asset_amount) => {
                proof {
                    lemma_index_cases(self, asset_amount.token_id@);
                }
                let i = match self.find_asset(&asset_amount.token_id) {
                    Some(i) => i,
                    None => {
                        return Err(LendingError::AssetNotFound);
                    },
                };
                let mut receiver = AccountAsset { shares: account.supplied[i] };
                match self.internal_decrease_collateral(&mut receiver, account, asset_amount) {
                    Ok(_) => {
                        account.supplied.set(i, receiver.shares);
                        Ok(())
                    },
                    Err(e) => Err(e),
                }
            },
            Action::Borrow(asset_amount) => {
                proof {
                    lemma_index_cases(self, asset_amount.token_id@);
                }
                match self.internal_borrow(account, asset_amount) {
                    Ok(_) => Ok(()),
                    Err(e) => Err(e),
                }
            },
            Action::Repay(asset_amount) => {
                proof {
                    lemma_index_cases(self, asset_amount.token_id@);
                }
                let i = match self.find_asset(&asset_amount.token_id) {
                    Some(i) => i,
                    None => {
                        return Err(LendingError::AssetNotFound);
                    },
                };
                let mut payer = AccountAsset { shares: account.supplied[i] };
                match self.internal_repay(&mut payer, account, asset_amount) {
                    Ok(_) => {
                        account.supplied.set(i, payer.shares);
                        Ok(())
                    },
                    Err(e) => Err(e),
                }
            },
            Action::Liquidate { account_id, in_assets, out_assets } => {
                if *account_id == account.account_id {
                    return Err(LendingError::SelfLiquidation);
                }
                if in_assets.len() == 0 || out_assets.len() == 0 {
                    return Err(LendingError::ZeroAmountOrShares);
                }
                let mut k: usize = 0;
                while k < others.len() && !(others[k].account_id == *account_id)
                    invariant
                        k <= others@.len(),
                        forall|j: int| 0 <= j < k ==> others@[j].account_id@ != account_id@,
                    decreases others@.len() - k,
                {
                    k = k + 1;
                }
                if k == others.len() {
                    proof {
                        let ids = ids_of(others@);
                        assert forall|c: int| !first_at(ids, account_id@, c) by {
                            if 0 <= c < ids.len() {
                                assert(ids[c] == others@[c].account_id@);
                            }
                        }
                    }
                    return Err(LendingError::AccountNotFound);
                }
                proof {
                    let ids = ids_of(others@);
                    assert forall|j: int| 0 <= j < k implies ids[j] != account_id@ by {
                        assert(ids[j] == others@[j].account_id@);
                    }
                    assert(ids[k as int] == others@[k as int].account_id@);
                    lemma_first_account(ids, account_id@, k as int);
                }
                let mut target = others[k].duplicate();
                let res = self.internal_liquidate(
                    account,
                    &mut target,
                    prices,
                    in_assets,
                    out_assets,
                );
                let ghost before = others@;
                others.set(k, target);
                proof {
                    assert(ids_of(others@) =~= ids_of(before));
                    if res is Ok {
                        assert(positions_of(others@) =~= positions_of(before).update(
                            k as int,
                            (
                                before[k as int].supplied@,
                                others@[k as int].collateral@,
                                others@[k as int].borrowed@,
                            ),
                        ));
                    }
                }
                match res {
                    Ok(_) => Ok(()),
                    Err(e) => Err(e),
                }
            },
        }
    }

    /// Runs a batch of actions for `account`, with `others` the accounts it
    /// may liquidate. After the batch the account holds at most
    /// `MAX_NUM_ASSETS` collateral and debt assets where an action could add
    /// one, and is not at risk where an action could raise its risk. Returns
    /// the withdrawn amounts to transfer out and the farms the batch touched,
    /// which are to be re-settled; a refused batch changes nothing.
    pub fn internal_execute(
        &mut self,
        account: &mut Account,
        others: &mut Vec<Account>,
        actions: &Vec<Action>,
        prices: &Prices,
    ) -> (r: Result<BatchOutcome, LendingError>)
        requires
            old(self).wf(),
            old(self).fits(old(account)),
            all_fit(old(self), old(others)@),
        ensures
            final(self).wf(),
            final(self).fits(final(account)),
            all_fit(final(self), final(others)@),
            final(self).asset_ids@ == old(self).asset_ids@,
            final(account).account_id == old(account).account_id,
            r is Ok && (exists|j: int|
                0 <= j < actions@.len() && adds_positions(#[trigger] actions@[j]))
                ==> final(account).num_positions() <= MAX_NUM_ASSETS,
            r is Ok && (exists|j: int|
                0 <= j < actions@.len() && needs_risk_check(#[trigger] actions@[j])) ==> prices_cover(
                final(account),
                prices,
                final(self).assets@.len(),
            ) && max_discount_spec(final(self), final(account), prices) == 0,
            r is Err ==> final(self).assets@ == old(self).assets@ && same_positions(
                final(account),
                old(account),
            ) && final(others)@.len() == old(others)@.len() && forall|k: int|
                0 <= k < old(others)@.len() ==> same_positions(
                    &#[trigger] final(others)@[k],
                    &old(others)@[k],
                ),
            match execute_spec(
                old(self).asset_ids@,
                old(account).account_id@,
                ids_of(old(others)@),
                (
                    old(self).assets@,
                    positions(old(account)),
                    positions_of(old(others)@),
                    Seq::<(String, u128)>::empty(),
                ),
                prices,
                actions@,
            ) {
                Err(e) => r is Err && r->Err_0 == e,
                Ok(st) => r is Ok && r->Ok_0.transfers@ == st.3 && r->Ok_0.affected_farms@
                    == batch_farms(actions@, actions@.len()) && r->Ok_0.liquidated_farms@
                    == batch_targets(actions@, actions@.len()) && final(self).assets@ == st.0 && positions(
                    final(account),
                ) == st.1 && positions_of(final(others)@) == st.2,
            },
    {
        let saved_assets = copy_assets(&self.assets);
        let saved_account = account.duplicate();
        let saved_others = copy_accounts(others);
        let mut transfers: Vec<(String, u128)> = Vec::new();
        let mut need_number_check = false;
        let mut need_risk_check = false;
        let mut failure: Option<LendingError> = None;
        let mut j: usize = 0;
        while j < actions.len()
            invariant
                self.wf(),
                self.fits(account),
                all_fit(self, others@),
                others@.len() == old(others)@.len(),
                self.asset_ids@ == old(self).asset_ids@,
                account.account_id == old(account).account_id,
                j <= actions@.len(),
                failure is None ==> need_number_check == exists|t: int|
                    0 <= t < j && adds_positions(#[trigger] actions@[t]),
                failure is None ==> need_risk_check == exists|t: int|
                    0 <= t < j && needs_risk_check(#[trigger] actions@[t]),
                ids_of(others@) == ids_of(old(others)@),
                account.account_id == old(account).account_id,
                failure is None ==> batch_spec(
                    old(self).asset_ids@,
                    old(account).account_id@,
                    ids_of(old(others)@),
                    (
                        old(self).assets@,
                        positions(old(account)),
                        positions_of(old(others)@),
                        Seq::<(String, u128)>::empty(),
                    ),
                    prices,
                    actions@,
                    j as nat,
                ) == Ok::<BatchState, LendingError>(
                    (self.assets@, positions(account), positions_of(others@), transfers@),
                ),
                failure is Some ==> batch_spec(
                    old(self).asset_ids@,
                    old(account).account_id@,
                    ids_of(old(others)@),
                    (
                        old(self).assets@,
                        positions(old(account)),
                        positions_of(old(others)@),
                        Seq::<(String, u128)>::empty(),
                    ),
                    prices,
                    actions@,
                    actions@.len(),
                ) == Err::<BatchState, LendingError>(failure->Some_0),
                failure is Some ==> j == actions@.len(),
            decreases actions@.len() - j,
        {
            let action = &actions[j];
            match action {
                Action::IncreaseCollateral(_) => {
                    need_number_check = true;
                },
                Action::Borrow(_) => {
                    need_number_check = true;
                    need_risk_check = true;
                },
                Action::DecreaseCollateral(_) | Action::Liquidate { .. } => {
                    need_risk_check = true;
                },
                _ => {},
            }
            match self.execute_action(account, others, action, prices, &mut transfers) {
                Ok(()) => {
                    j = j + 1;
                },
                Err(e) => {
                    proof {
                        lemma_batch_stop(
                            old(self).asset_ids@,
                            old(account).account_id@,
                            ids_of(old(others)@),
                            (
                                old(self).assets@,
                                positions(old(account)),
                                positions_of(old(others)@),
                                Seq::<(String, u128)>::empty(),
                            ),
                            prices,
                            actions@,
                            (j + 1) as nat,
                            actions@.len(),
                        );
                    }
                    failure = Some(e);
                    j = actions.len();
                },
            }
            if failure.is_none() {
                assert(need_number_check == exists|t: int|
                    0 <= t < j && adds_positions(#[trigger] actions@[t])) by {
                    if adds_positions(actions@[j - 1]) {
                        assert(need_number_check);
                    }
                }
                assert(need_risk_check == exists|t: int|
                    0 <= t < j && needs_risk_check(#[trigger] actions@[t])) by {
                    if needs_risk_check(actions@[j - 1]) {
                        assert(need_risk_check);
                    }
                }
            }
        }
        if failure.is_none() {
            if need_number_check && account.get_num_positions() > MAX_NUM_ASSETS as u128 {
                failure = Some(LendingError::TooManyAssets);
            }
        }
        if failure.is_none() && need_risk_check {
            match self.compute_max_discount(account, prices) {
                Ok(d) => {
                    if !d.is_zero() {
                        failure = Some(LendingError::AtRisk);
                    }
                },
                Err(e) => {
                    failure = Some(e);
                },
            }
        }
        match failure {
            Some(e) => {
                self.assets = saved_assets;
                *account = saved_account;
                *others = saved_others;
                Err(e)
            },
            None => {
                let (affected_farms, liquidated_farms) = batch_affected_farms(actions);
                Ok(BatchOutcome { transfers, affected_farms, liquidated_farms })
            },
        }
    }
}

} // verus!
