//! Liquidation: a liquidator repays an at-risk account's debt and takes its
//! collateral at a discount.
use vstd::prelude::*;

use crate::account::{Account, AccountAsset};
use crate::actions::{move_spec, repay_spec, same_positions, with_pools, AssetAmount, Contract};
use crate::asset::Asset;
use crate::big_decimal::{balance_price_spec, mul_spec, BigDecimal, BIG_DIVISOR};
use crate::affected::{
    concat_farms, farms_of, liquidation_target_farms, supplied_farms, target_farms,
};
use crate::config::Config;
use crate::error::LendingError;
use crate::farm::FarmId;
use crate::pool::{shares_to_amount_spec, Pool};
use crate::prices::Prices;
use crate::risk::{covers, discount_of, lemma_discount_bounded, max_discount_spec, prices_cover};

verus! {

/// A copy of the market list.
pub fn copy_assets(v: &Vec<Asset>) -> (r: Vec<Asset>)
    ensures
        r@ == v@,
{
    let mut r: Vec<Asset> = Vec::new();
    let mut i: usize = 0;
    while i < v.len()
        invariant
            i <= v@.len(),
            r@ == v@.subrange(0, i as int),
        decreases v@.len() - i,
    {
        r.push(v[i]);
        i = i + 1;
        assert(r@ =~= v@.subrange(0, i as int));
    }
    assert(r@ =~= v@);
    r
}

/// The unweighted quote value of the collateral among the first `n` assets.
pub open spec fn plain_collateral_sum(assets: Seq<Asset>, account: &Account, prices: &Prices, n: nat) -> nat
    decreases n,
{
    if n == 0 {
        0
    } else {
        let i = n - 1;
        let p = prices.price_at(i)->Some_0;
        plain_collateral_sum(assets, account, prices, (n - 1) as nat) + if account.collateral@[i]
            > 0 {
            balance_price_spec(
                shares_to_amount_spec(assets[i].supplied, account.collateral@[i] as nat, false),
                p.multiplier as nat,
                p.decimals as nat,
            )
        } else {
            0
        }
    }
}

/// The unweighted quote value of the debt among the first `n` assets.
pub open spec fn plain_borrowed_sum(assets: Seq<Asset>, account: &Account, prices: &Prices, n: nat) -> nat
    decreases n,
{
    if n == 0 {
        0
    } else {
        let i = n - 1;
        let p = prices.price_at(i)->Some_0;
        plain_borrowed_sum(assets, account, prices, (n - 1) as nat) + if account.borrowed@[i] > 0 {
            balance_price_spec(
                shares_to_amount_spec(assets[i].borrowed, account.borrowed@[i] as nat, true),
                p.multiplier as nat,
                p.decimals as nat,
            )
        } else {
            0
        }
    }
}

/// An asset after an account's collateral `cs` and debt `bs` of it are
/// closed: the collateral's balance moves from the supplied pool to the
/// reserve and the debt's balance is written off the borrowed pool and the
/// reserve. `None` where the pools or the reserve fall short.
pub open spec fn closed_spec(asset: Asset, cs: nat, bs: nat) -> Option<Asset> {
    let c_amount = if cs > 0 {
        shares_to_amount_spec(asset.supplied, cs, false)
    } else {
        0
    };
    let b_amount = if bs > 0 {
        shares_to_amount_spec(asset.borrowed, bs, true)
    } else {
        0
    };
    if cs > asset.supplied.shares || bs > asset.borrowed.shares || b_amount > asset.reserved
        + c_amount {
        None
    } else {
        Some(
            Asset {
                supplied: Pool {
                    shares: (asset.supplied.shares - cs) as u128,
                    balance: (asset.supplied.balance - c_amount) as u128,
                },
                borrowed: Pool {
                    shares: (asset.borrowed.shares - bs) as u128,
                    balance: (asset.borrowed.balance - b_amount) as u128,
                },
                reserved: (asset.reserved + c_amount - b_amount) as u128,
                ..asset
            },
        )
    }
}

/// Whether every asset of an account can be closed.
pub open spec fn all_closable(assets: Seq<Asset>, account: &Account) -> bool {
    forall|j: int|
        0 <= j < assets.len() ==> (#[trigger] closed_spec(
            assets[j],
            account.collateral@[j] as nat,
            account.borrowed@[j] as nat,
        )) is Some
}

/// The index at which `token` is listed, where it is.
pub open spec fn index_of(ids: Seq<String>, token: Seq<char>) -> Option<int> {
    if exists|i: int| 0 <= i < ids.len() && ids[i]@ == token {
        Some(choose|i: int| 0 <= i < ids.len() && ids[i]@ == token)
    } else {
        None
    }
}

/// A listed token's index is the one `index_of` names.
pub proof fn lemma_index_of(c: &Contract, token: Seq<char>, i: int)
    requires
        c.wf(),
        c.listed_at(token, i),
    ensures
        index_of(c.asset_ids@, token) == Some(i),
{
    let ids = c.asset_ids@;
    assert(0 <= i < ids.len() && ids[i]@ == token);
    let j = choose|j: int| 0 <= j < ids.len() && ids[j]@ == token;
    if j < i {
        assert(ids[j]@ != ids[i]@);
    } else if j > i {
        assert(ids[i]@ != ids[j]@);
    }
}

/// `index_of` names a token's index exactly when the token is listed.
pub proof fn lemma_index_cases(c: &Contract, token: Seq<char>)
    requires
        c.wf(),
    ensures
        index_of(c.asset_ids@, token) is None <==> !c.listed(token),
        index_of(c.asset_ids@, token) is Some ==> c.listed_at(
            token,
            index_of(c.asset_ids@, token)->Some_0,
        ),
{
    if c.listed(token) {
        let i = choose|i: int| c.listed_at(token, i);
        lemma_index_of(c, token, i);
    } else {
        lemma_index_none(c, token);
    }
}

/// An unlisted token has no index.
pub proof fn lemma_index_none(c: &Contract, token: Seq<char>)
    requires
        !c.listed(token),
    ensures
        index_of(c.asset_ids@, token) is None,
{
    assert forall|i: int| !(0 <= i < c.asset_ids@.len() && c.asset_ids@[i]@ == token) by {
        if 0 <= i < c.asset_ids@.len() && c.asset_ids@[i]@ == token {
            assert(c.listed_at(token, i));
        }
    }
}

/// The state of a liquidation: the markets, the liquidator's supplied
/// shares, the target's collateral and debt shares, the value repaid and
/// the value taken.
pub type LiquidationState = (Seq<Asset>, Seq<u128>, Seq<u128>, Seq<u128>, nat, nat);

/// Repaying one asset of the target's debt out of the liquidator's supplied
/// shares, as `repay_spec` decides it.
pub open spec fn repay_step(
    ids: Seq<String>,
    st: LiquidationState,
    prices: &Prices,
    aa: AssetAmount,
) -> Result<LiquidationState, LendingError> {
    match index_of(ids, aa.token_id@) {
        None => Err(LendingError::AssetNotFound),
        Some(i) => {
            let asset = st.0[i];
            match repay_spec(asset, st.1[i] as nat, st.3[i] as nat, &aa) {
                Err(e) => Err(e),
                Ok((bs, ss, a)) => match prices.price_at(i) {
                    None => Err(LendingError::MissingPrice),
                    Some(p) => Ok(
                        (
                            with_pools(
                                st.0,
                                i,
                                Pool {
                                    shares: (asset.supplied.shares - ss) as u128,
                                    balance: (asset.supplied.balance - a) as u128,
                                },
                                Pool {
                                    shares: (asset.borrowed.shares - bs) as u128,
                                    balance: (asset.borrowed.balance - a) as u128,
                                },
                            ),
                            st.1.update(i, (st.1[i] - ss) as u128),
                            st.2,
                            st.3.update(i, (st.3[i] - bs) as u128),
                            st.4 + balance_price_spec(a, p.multiplier as nat, p.decimals as nat),
                            st.5,
                        ),
                    ),
                },
            }
        },
    }
}

/// Moving one asset of the target's collateral to the liquidator's supplied
/// shares, as `move_spec` decides it.
pub open spec fn take_step(
    ids: Seq<String>,
    st: LiquidationState,
    prices: &Prices,
    aa: AssetAmount,
) -> Result<LiquidationState, LendingError> {
    match index_of(ids, aa.token_id@) {
        None => Err(LendingError::AssetNotFound),
        Some(i) => match move_spec(st.0[i], st.2[i] as nat, &aa) {
            Err(e) => Err(e),
            Ok((s, a)) => if st.1[i] + s > u128::MAX {
                Err(LendingError::Overflow)
            } else {
                match prices.price_at(i) {
                    None => Err(LendingError::MissingPrice),
                    Some(p) => Ok(
                        (
                            st.0,
                            st.1.update(i, (st.1[i] + s) as u128),
                            st.2.update(i, (st.2[i] - s) as u128),
                            st.3,
                            st.4,
                            st.5 + balance_price_spec(a, p.multiplier as nat, p.decimals as nat),
                        ),
                    ),
                }
            },
        },
    }
}

/// Conservation in a repayment: the supplied pool loses the shares the
/// liquidator spends, and the borrowed pool the debt shares the target
/// sheds; every other market is untouched.
pub proof fn lemma_repay_step_conserves(
    ids: Seq<String>,
    st: LiquidationState,
    prices: &Prices,
    aa: AssetAmount,
    i: int,
)
    requires
        repay_step(ids, st, prices, aa) is Ok,
        index_of(ids, aa.token_id@) == Some(i),
        0 <= i < st.0.len(),
        st.0.len() == st.1.len(),
        st.0.len() == st.3.len(),
    ensures
        ({
            let st2 = repay_step(ids, st, prices, aa)->Ok_0;
            &&& st2.0[i].supplied.shares + st.1[i] == st.0[i].supplied.shares + st2.1[i]
            &&& st2.0[i].borrowed.shares + st.3[i] == st.0[i].borrowed.shares + st2.3[i]
            &&& st2.2 == st.2
            &&& forall|j: int| 0 <= j < st.0.len() && j != i ==> st2.0[j] == st.0[j]
        }),
{
}

/// Conservation in a collateral move: the shares leave the target's
/// collateral and reach the liquidator's supplied shares, and no pool
/// changes.
pub proof fn lemma_take_step_conserves(
    ids: Seq<String>,
    st: LiquidationState,
    prices: &Prices,
    aa: AssetAmount,
    i: int,
)
    requires
        take_step(ids, st, prices, aa) is Ok,
        index_of(ids, aa.token_id@) == Some(i),
        0 <= i < st.1.len(),
        st.1.len() == st.2.len(),
    ensures
        ({
            let st2 = take_step(ids, st, prices, aa)->Ok_0;
            &&& st2.0 == st.0
            &&& st2.1[i] + st2.2[i] == st.1[i] + st.2[i]
            &&& st2.3 == st.3
            &&& forall|j: int| 0 <= j < st.1.len() && j != i ==> st2.1[j] == st.1[j] && st2.2[j]
                == st.2[j]
        }),
{
}

/// The first `k` repayments, in order; the first refusal ends them.
pub open spec fn repay_steps(
    ids: Seq<String>,
    st: LiquidationState,
    prices: &Prices,
    assets: Seq<AssetAmount>,
    k: nat,
) -> Result<LiquidationState, LendingError>
    decreases k,
{
    if k == 0 {
        Ok(st)
    } else {
        match repay_steps(ids, st, prices, assets, (k - 1) as nat) {
            Err(e) => Err(e),
            Ok(s1) => repay_step(ids, s1, prices, assets[k - 1]),
        }
    }
}

/// The first `k` collateral moves, in order; the first refusal ends them.
pub open spec fn take_steps(
    ids: Seq<String>,
    st: LiquidationState,
    prices: &Prices,
    assets: Seq<AssetAmount>,
    k: nat,
) -> Result<LiquidationState, LendingError>
    decreases k,
{
    if k == 0 {
        Ok(st)
    } else {
        match take_steps(ids, st, prices, assets, (k - 1) as nat) {
            Err(e) => Err(e),
            Ok(s1) => take_step(ids, s1, prices, assets[k - 1]),
        }
    }
}

/// A refusal among the first `k` repayments ends all of them.
pub proof fn lemma_repay_steps_stop(
    ids: Seq<String>,
    st: LiquidationState,
    prices: &Prices,
    assets: Seq<AssetAmount>,
    k: nat,
    m: nat,
)
    requires
        k <= m,
        repay_steps(ids, st, prices, assets, k) is Err,
    ensures
        repay_steps(ids, st, prices, assets, m) == repay_steps(ids, st, prices, assets, k),
    decreases m,
{
    if m > k {
        lemma_repay_steps_stop(ids, st, prices, assets, k, (m - 1) as nat);
    }
}

/// A refusal among the first `k` collateral moves ends all of them.
pub proof fn lemma_take_steps_stop(
    ids: Seq<String>,
    st: LiquidationState,
    prices: &Prices,
    assets: Seq<AssetAmount>,
    k: nat,
    m: nat,
)
    requires
        k <= m,
        take_steps(ids, st, prices, assets, k) is Err,
    ensures
        take_steps(ids, st, prices, assets, m) == take_steps(ids, st, prices, assets, k),
    decreases m,
{
    if m > k {
        lemma_take_steps_stop(ids, st, prices, assets, k, (m - 1) as nat);
    }
}

/// The repayments, the collateral moves, and the check that the collateral
/// taken, discounted by `d0`, is worth no more than the debt repaid.
pub open spec fn exchange_spec(
    ids: Seq<String>,
    st: LiquidationState,
    prices: &Prices,
    in_assets: Seq<AssetAmount>,
    out_assets: Seq<AssetAmount>,
    d0: nat,
) -> Result<LiquidationState, LendingError> {
    match repay_steps(ids, st, prices, in_assets, in_assets.len()) {
        Err(e) => Err(e),
        Ok(s1) => match take_steps(ids, s1, prices, out_assets, out_assets.len()) {
            Err(e) => Err(e),
            Ok(s2) => if mul_spec(s2.5, (BIG_DIVISOR - d0) as nat) > s2.4 {
                Err(LendingError::InsufficientRepayment)
            } else {
                Ok(s2)
            },
        },
    }
}

/// The outcome of a liquidation of `target` by `account`: refused where a
/// held asset has no price, where the target is not at risk, where a step
/// is refused, where the discounted collateral taken exceeds the debt
/// repaid, or where the target's discount would grow.
pub open spec fn liquidation_spec(
    ids: Seq<String>,
    assets: Seq<Asset>,
    supplied: Seq<u128>,
    collateral: Seq<u128>,
    borrowed: Seq<u128>,
    prices: &Prices,
    in_assets: Seq<AssetAmount>,
    out_assets: Seq<AssetAmount>,
) -> Result<LiquidationState, LendingError> {
    let n = assets.len();
    if !covers(collateral, borrowed, prices, n) {
        Err(LendingError::MissingPrice)
    } else {
        let d0 = discount_of(assets, collateral, borrowed, prices);
        if d0 == 0 {
            Err(LendingError::NotAtRisk)
        } else {
            let st0 = (assets, supplied, collateral, borrowed, 0nat, 0nat);
            match exchange_spec(ids, st0, prices, in_assets, out_assets, d0) {
                Err(e) => Err(e),
                Ok(st) => if !covers(st.2, st.3, prices, n) {
                    Err(LendingError::MissingPrice)
                } else if discount_of(st.0, st.2, st.3, prices) > d0 {
                    Err(LendingError::HealthDecrease)
                } else {
                    Ok(st)
                },
            }
        }
    }
}

impl Contract {
    /// Moves the collateral and debt of the asset at `i` of an account into
    /// the reserve.
    fn close_position(&mut self, account: &mut Account, i: usize) -> (r: Result<(), LendingError>)
        requires
            old(self).wf(),
            old(self).fits(old(account)),
            i < old(self).assets@.len(),
        ensures
            final(self).wf(),
            final(self).fits(final(account)),
            final(self).asset_ids@ == old(self).asset_ids@,
            final(account).account_id == old(account).account_id,
            final(account).supplied@ == old(account).supplied@,
            r is Err ==> r->Err_0 == LendingError::InsufficientBalance,
            r is Ok <==> closed_spec(
                old(self).assets@[i as int],
                old(account).collateral@[i as int] as nat,
                old(account).borrowed@[i as int] as nat,
            ) is Some,
            r is Ok ==> final(self).assets@[i as int] == closed_spec(
                old(self).assets@[i as int],
                old(account).collateral@[i as int] as nat,
                old(account).borrowed@[i as int] as nat,
            )->Some_0,
            r is Err ==> final(self).assets@ == old(self).assets@ && same_positions(
                final(account),
                old(account),
            ),
            r is Ok ==> final(account).collateral@ == old(account).collateral@.update(i as int, 0)
                && final(account).borrowed@ == old(account).borrowed@.update(i as int, 0) && forall|
                j: int|
                0 <= j < old(self).assets@.len() && j != i ==> final(self).assets@[j] == old(
                    self,
                ).assets@[j],
    {
        let mut asset = self.assets[i];
        let cs = account.collateral[i];
        let bs = account.borrowed[i];
        if cs > asset.supplied.shares || bs > asset.borrowed.shares {
            return Err(LendingError::InsufficientBalance);
        }
        if cs > 0 {
            let amount = asset.supplied.shares_to_amount(cs, false);
            let _ = asset.supplied.withdraw(cs, amount);
            asset.reserved = asset.reserved + amount;
        }
        if bs > 0 {
            let amount = asset.borrowed.shares_to_amount(bs, true);
            if amount > asset.reserved {
                return Err(LendingError::InsufficientBalance);
            }
            let _ = asset.borrowed.withdraw(bs, amount);
            asset.reserved = asset.reserved - amount;
        }
        self.assets.set(i, asset);
        account.collateral.set(i, 0);
        account.borrowed.set(i, 0);
        Ok(())
    }

    /// Closes an account whose debt exceeds its collateral before weighting:
    /// its collateral goes to the reserves and its debt is written off from
    /// them, which fails where a reserve falls short. Refused, changing
    /// nothing, where the debt does not exceed the collateral.
    pub fn internal_force_close(
        &mut self,
        config: &Config,
        liquidation_account: &mut Account,
        prices: &Prices,
    ) -> (r: Result<(), LendingError>)
        requires
            old(self).wf(),
            old(self).fits(old(liquidation_account)),
        ensures
            final(self).wf(),
            final(self).fits(final(liquidation_account)),
            final(self).asset_ids@ == old(self).asset_ids@,
            final(liquidation_account).account_id == old(liquidation_account).account_id,
            !config.force_closing_enabled ==> r is Err && r->Err_0
                == LendingError::ForceClosingDisabled,
            config.force_closing_enabled && !prices_cover(
                old(liquidation_account),
                prices,
                old(self).assets@.len(),
            ) ==> r is Err && r->Err_0 == LendingError::MissingPrice,
            config.force_closing_enabled && prices_cover(
                old(liquidation_account),
                prices,
                old(self).assets@.len(),
            ) ==> ({
                let n = old(self).assets@.len();
                (plain_borrowed_sum(old(self).assets@, old(liquidation_account), prices, n)
                    <= plain_collateral_sum(old(self).assets@, old(liquidation_account), prices, n))
                    <==> (r is Err && r->Err_0 == LendingError::NotBadDebt)
            }),
            config.force_closing_enabled && prices_cover(
                old(liquidation_account),
                prices,
                old(self).assets@.len(),
            ) && ({
                let n = old(self).assets@.len();
                plain_borrowed_sum(old(self).assets@, old(liquidation_account), prices, n)
                    > plain_collateral_sum(old(self).assets@, old(liquidation_account), prices, n)
            }) ==> (r is Ok <==> all_closable(old(self).assets@, old(liquidation_account))),
            r is Ok ==> config.force_closing_enabled,
            r is Ok ==> forall|j: int|
                0 <= j < old(self).assets@.len() ==> final(self).assets@[j] == (#[trigger] closed_spec(
                    old(self).assets@[j],
                    old(liquidation_account).collateral@[j] as nat,
                    old(liquidation_account).borrowed@[j] as nat,
                ))->Some_0,
            r is Ok ==> {
                let n = old(self).assets@.len();
                &&& plain_borrowed_sum(old(self).assets@, old(liquidation_account), prices, n)
                    > plain_collateral_sum(old(self).assets@, old(liquidation_account), prices, n)
                &&& final(liquidation_account).supplied@ == old(liquidation_account).supplied@
                &&& forall|j: int|
                    0 <= j < n ==> final(liquidation_account).collateral@[j] == 0
                        && final(liquidation_account).borrowed@[j] == 0
            },
            r is Err ==> final(self).assets@ == old(self).assets@ && same_positions(
                final(liquidation_account),
                old(liquidation_account),
            ),
    {
        if !config.force_closing_enabled {
            return Err(LendingError::ForceClosingDisabled);
        }
        let n = self.assets.len();
        let mut collateral_sum = BigDecimal::zero();
        let mut borrowed_sum = BigDecimal::zero();
        let mut k: usize = 0;
        while k < n
            invariant
                config.force_closing_enabled,
                n == self.assets@.len(),
                self.wf(),
                self.fits(liquidation_account),
                k <= n,
                prices_cover(liquidation_account, prices, k as nat),
                collateral_sum@ == plain_collateral_sum(self.assets@, liquidation_account, prices, k as nat),
                borrowed_sum@ == plain_borrowed_sum(self.assets@, liquidation_account, prices, k as nat),
            decreases n - k,
        {
            let cs = liquidation_account.collateral[k];
            let bs = liquidation_account.borrowed[k];
            if cs > 0 || bs > 0 {
                let price = match prices.get(k) {
                    Some(p) => p,
                    None => {
                        return Err(LendingError::MissingPrice);
                    },
                };
                let asset = self.assets[k];
                if cs > 0 {
                    let amount = asset.supplied.shares_to_amount(cs, false);
                    collateral_sum = collateral_sum.add(&BigDecimal::from_balance_price(amount, &price));
                }
                if bs > 0 {
                    let amount = asset.borrowed.shares_to_amount(bs, true);
                    borrowed_sum = borrowed_sum.add(&BigDecimal::from_balance_price(amount, &price));
                }
            }
            k = k + 1;
        }
        if borrowed_sum.le(&collateral_sum) {
            return Err(LendingError::NotBadDebt);
        }
        let saved_assets = copy_assets(&self.assets);
        let saved_target = liquidation_account.duplicate();
        let mut failure: Option<LendingError> = None;
        let mut i: usize = 0;
        while i < n
            invariant
                config.force_closing_enabled,
                n == self.assets@.len(),
                self.wf(),
                self.fits(liquidation_account),
                self.asset_ids@ == old(self).asset_ids@,
                liquidation_account.account_id == old(liquidation_account).account_id,
                liquidation_account.supplied@ == old(liquidation_account).supplied@,
                i <= n,
                n == old(self).assets@.len(),
                old(self).fits(old(liquidation_account)),
                i < n ==> failure is None,
                failure is Some ==> failure->Some_0 == LendingError::InsufficientBalance,
                failure is Some ==> !all_closable(old(self).assets@, old(liquidation_account)),
                failure is None ==> forall|j: int|
                    0 <= j < i ==> liquidation_account.collateral@[j] == 0
                        && liquidation_account.borrowed@[j] == 0,
                failure is None ==> forall|j: int|
                    0 <= j < i ==> (#[trigger] closed_spec(
                        old(self).assets@[j],
                        old(liquidation_account).collateral@[j] as nat,
                        old(liquidation_account).borrowed@[j] as nat,
                    )) is Some && self.assets@[j] == closed_spec(
                        old(self).assets@[j],
                        old(liquidation_account).collateral@[j] as nat,
                        old(liquidation_account).borrowed@[j] as nat,
                    )->Some_0,
                failure is None ==> forall|j: int|
                    i <= j < n ==> self.assets@[j] == old(self).assets@[j]
                        && liquidation_account.collateral@[j] == old(
                        liquidation_account).collateral@[j]
                        && liquidation_account.borrowed@[j] == old(liquidation_account).borrowed@[j],
            decreases n - i,
        {
            match self.close_position(liquidation_account, i) {
                Ok(()) => {
                    i = i + 1;
                },
                Err(e) => {
                    assert(closed_spec(
                        old(self).assets@[i as int],
                        old(liquidation_account).collateral@[i as int] as nat,
                        old(liquidation_account).borrowed@[i as int] as nat,
                    ) is None);
                    assert(!all_closable(old(self).assets@, old(liquidation_account))) by {
                        if all_closable(old(self).assets@, old(liquidation_account)) {
                            assert(closed_spec(
                                old(self).assets@[i as int],
                                old(liquidation_account).collateral@[i as int] as nat,
                                old(liquidation_account).borrowed@[i as int] as nat,
                            ) is Some);
                        }
                    }
                    failure = Some(e);
                    i = n;
                },
            }
        }
        match failure {
            Some(e) => {
                self.assets = saved_assets;
                *liquidation_account = saved_target;
                Err(e)
            },
            None => Ok(()),
        }
    }

    /// Repays the listed debts of `liquidation_account` out of `account`'s
    /// supplied shares, moves the listed collateral to `account`, and checks
    /// that the discounted value taken does not exceed the value repaid.
    fn liquidate_steps(
        &mut self,
        account: &mut Account,
        liquidation_account: &mut Account,
        prices: &Prices,
        in_assets: &Vec<AssetAmount>,
        out_assets: &Vec<AssetAmount>,
        max_discount: &BigDecimal,
    ) -> (r: Result<(), LendingError>)
        requires
            old(self).wf(),
            old(self).fits(old(account)),
            old(self).fits(old(liquidation_account)),
            max_discount@ <= BIG_DIVISOR,
        ensures
            final(self).wf(),
            final(self).fits(final(account)),
            final(self).fits(final(liquidation_account)),
            final(self).asset_ids@ == old(self).asset_ids@,
            final(account).account_id == old(account).account_id,
            final(liquidation_account).account_id == old(liquidation_account).account_id,
            final(account).collateral@ == old(account).collateral@,
            final(account).borrowed@ == old(account).borrowed@,
            final(liquidation_account).supplied@ == old(liquidation_account).supplied@,
            match exchange_spec(
                old(self).asset_ids@,
                (
                    old(self).assets@,
                    old(account).supplied@,
                    old(liquidation_account).collateral@,
                    old(liquidation_account).borrowed@,
                    0nat,
                    0nat,
                ),
                prices,
                in_assets@,
                out_assets@,
                max_discount@,
            ) {
                Err(e) => r is Err && r->Err_0 == e,
                Ok(st) => r is Ok && final(self).assets@ == st.0 && final(account).supplied@ == st.1
                    && final(liquidation_account).collateral@ == st.2
                    && final(liquidation_account).borrowed@ == st.3,
            },
    {
        let ghost ids = self.asset_ids@;
        let ghost st0: LiquidationState = (
            self.assets@,
            account.supplied@,
            liquidation_account.collateral@,
            liquidation_account.borrowed@,
            0nat,
            0nat,
        );
        let mut repaid_sum = BigDecimal::zero();
        let mut taken_sum = BigDecimal::zero();
        let mut k: usize = 0;
        while k < in_assets.len()
            invariant
                self.wf(),
                self.fits(account),
                self.fits(liquidation_account),
                self.asset_ids@ == old(self).asset_ids@,
                account.account_id == old(account).account_id,
                liquidation_account.account_id == old(liquidation_account).account_id,
                ids == old(self).asset_ids@,
                st0 == (
                    old(self).assets@,
                    old(account).supplied@,
                    old(liquidation_account).collateral@,
                    old(liquidation_account).borrowed@,
                    0nat,
                    0nat,
                ),
                k <= in_assets@.len(),
                account.collateral@ == old(account).collateral@,
                account.borrowed@ == old(account).borrowed@,
                liquidation_account.supplied@ == old(liquidation_account).supplied@,
                repay_steps(ids, st0, prices, in_assets@, k as nat) == Ok::<
                    LiquidationState,
                    LendingError,
                >(
                    (
                        self.assets@,
                        account.supplied@,
                        liquidation_account.collateral@,
                        liquidation_account.borrowed@,
                        repaid_sum@,
                        0nat,
                    ),
                ),
            decreases in_assets@.len() - k,
        {
            let asset_amount = &in_assets[k];
            let i = match self.find_asset(&asset_amount.token_id) {
                Some(i) => i,
                None => {
                    proof {
                        lemma_index_none(self, asset_amount.token_id@);
                        lemma_repay_steps_stop(ids, st0, prices, in_assets@, (k + 1) as nat, in_assets@.len());
                    }
                    return Err(LendingError::AssetNotFound);
                },
            };
            proof {
                lemma_index_of(self, asset_amount.token_id@, i as int);
            }
            let mut payer = AccountAsset { shares: account.supplied[i] };
            let amount = match self.internal_repay(&mut payer, liquidation_account, asset_amount) {
                Ok(a) => a,
                Err(e) => {
                    proof {
                        lemma_repay_steps_stop(ids, st0, prices, in_assets@, (k + 1) as nat, in_assets@.len());
                    }
                    return Err(e);
                },
            };
            account.supplied.set(i, payer.shares);
            let price = match prices.get(i) {
                Some(p) => p,
                None => {
                    proof {
                        lemma_repay_steps_stop(ids, st0, prices, in_assets@, (k + 1) as nat, in_assets@.len());
                    }
                    return Err(LendingError::MissingPrice);
                },
            };
            repaid_sum = repaid_sum.add(&BigDecimal::from_balance_price(amount, &price));
            k = k + 1;
        }
        let ghost s1: LiquidationState = (
            self.assets@,
            account.supplied@,
            liquidation_account.collateral@,
            liquidation_account.borrowed@,
            repaid_sum@,
            0nat,
        );
        let mut k: usize = 0;
        while k < out_assets.len()
            invariant
                self.wf(),
                self.fits(account),
                self.fits(liquidation_account),
                self.asset_ids@ == old(self).asset_ids@,
                account.account_id == old(account).account_id,
                liquidation_account.account_id == old(liquidation_account).account_id,
                ids == old(self).asset_ids@,
                st0 == (
                    old(self).assets@,
                    old(account).supplied@,
                    old(liquidation_account).collateral@,
                    old(liquidation_account).borrowed@,
                    0nat,
                    0nat,
                ),
                k <= out_assets@.len(),
                account.collateral@ == old(account).collateral@,
                account.borrowed@ == old(account).borrowed@,
                liquidation_account.supplied@ == old(liquidation_account).supplied@,
                repay_steps(ids, st0, prices, in_assets@, in_assets@.len()) == Ok::<
                    LiquidationState,
                    LendingError,
                >(s1),
                take_steps(ids, s1, prices, out_assets@, k as nat) == Ok::<
                    LiquidationState,
                    LendingError,
                >(
                    (
                        self.assets@,
                        account.supplied@,
                        liquidation_account.collateral@,
                        liquidation_account.borrowed@,
                        s1.4,
                        taken_sum@,
                    ),
                ),
                repaid_sum@ == s1.4,
            decreases out_assets@.len() - k,
        {
            let asset_amount = &out_assets[k];
            let i = match self.find_asset(&asset_amount.token_id) {
                Some(i) => i,
                None => {
                    proof {
                        lemma_index_none(self, asset_amount.token_id@);
                        lemma_take_steps_stop(ids, s1, prices, out_assets@, (k + 1) as nat, out_assets@.len());
                    }
                    return Err(LendingError::AssetNotFound);
                },
            };
            proof {
                lemma_index_of(self, asset_amount.token_id@, i as int);
            }
            let mut receiver = AccountAsset { shares: account.supplied[i] };
            let amount = match self.internal_decrease_collateral(
                &mut receiver,
                liquidation_account,
                asset_amount,
            ) {
                Ok(a) => a,
                Err(e) => {
                    proof {
                        lemma_take_steps_stop(ids, s1, prices, out_assets@, (k + 1) as nat, out_assets@.len());
                    }
                    return Err(e);
                },
            };
            account.supplied.set(i, receiver.shares);
            let price = match prices.get(i) {
                Some(p) => p,
                None => {
                    proof {
                        lemma_take_steps_stop(ids, s1, prices, out_assets@, (k + 1) as nat, out_assets@.len());
                    }
                    return Err(LendingError::MissingPrice);
                },
            };
            taken_sum = taken_sum.add(&BigDecimal::from_balance_price(amount, &price));
            k = k + 1;
        }
        let discounted_taken = taken_sum.mul(&BigDecimal::one().sub(max_discount));
        if !discounted_taken.le(&repaid_sum) {
            return Err(LendingError::InsufficientRepayment);
        }
        Ok(())
    }

    /// Liquidates `liquidation_account` on behalf of `account`: refused unless
    /// the target is at risk, unless the discounted collateral taken is paid
    /// for, and where the target's discount would grow. A refused liquidation
    /// changes nothing.
    pub fn internal_liquidate(
        &mut self,
        account: &mut Account,
        liquidation_account: &mut Account,
        prices: &Prices,
        in_assets: &Vec<AssetAmount>,
        out_assets: &Vec<AssetAmount>,
    ) -> (r: Result<(Vec<FarmId>, Vec<FarmId>), LendingError>)
        requires
            old(self).wf(),
            old(self).fits(old(account)),
            old(self).fits(old(liquidation_account)),
        ensures
            final(self).wf(),
            final(self).fits(final(account)),
            final(self).fits(final(liquidation_account)),
            final(self).asset_ids@ == old(self).asset_ids@,
            final(account).account_id == old(account).account_id,
            final(liquidation_account).account_id == old(liquidation_account).account_id,
            !prices_cover(old(liquidation_account), prices, old(self).assets@.len()) ==> r is Err
                && r->Err_0 == LendingError::MissingPrice,
            prices_cover(old(liquidation_account), prices, old(self).assets@.len())
                && max_discount_spec(old(self), old(liquidation_account), prices) == 0 ==> r is Err
                && r->Err_0 == LendingError::NotAtRisk,
            r is Ok ==> max_discount_spec(old(self), old(liquidation_account), prices) > 0
                && prices_cover(final(liquidation_account), prices, final(self).assets@.len())
                && max_discount_spec(final(self), final(liquidation_account), prices)
                <= max_discount_spec(old(self), old(liquidation_account), prices),
            r is Err ==> final(self).assets@ == old(self).assets@ && same_positions(
                final(account),
                old(account),
            ) && same_positions(final(liquidation_account), old(liquidation_account)),
            match liquidation_spec(
                old(self).asset_ids@,
                old(self).assets@,
                old(account).supplied@,
                old(liquidation_account).collateral@,
                old(liquidation_account).borrowed@,
                prices,
                in_assets@,
                out_assets@,
            ) {
                Err(e) => r is Err && r->Err_0 == e,
                Ok(st) => {
                    &&& r is Ok
                    &&& final(self).assets@ == st.0
                    &&& final(account).supplied@ == st.1
                    &&& final(account).collateral@ == old(account).collateral@
                    &&& final(account).borrowed@ == old(account).borrowed@
                    &&& final(liquidation_account).collateral@ == st.2
                    &&& final(liquidation_account).borrowed@ == st.3
                    &&& final(liquidation_account).supplied@ == old(liquidation_account).supplied@
                    &&& r->Ok_0.0@ == supplied_farms(in_assets@) + supplied_farms(out_assets@)
                    &&& r->Ok_0.1@ == target_farms(in_assets@, out_assets@)
                },
            },
    {
        let max_discount = match self.compute_max_discount(liquidation_account, prices) {
            Ok(d) => d,
            Err(e) => {
                return Err(e);
            },
        };
        if max_discount.is_zero() {
            return Err(LendingError::NotAtRisk);
        }
        proof {
            let n = self.assets@.len();
            lemma_discount_bounded(
                crate::risk::collateral_sum(self.assets@, liquidation_account.collateral@, prices, n),
                crate::risk::borrowed_sum(self.assets@, liquidation_account.borrowed@, prices, n),
            );
        }
        let saved_assets = copy_assets(&self.assets);
        let saved_account = account.duplicate();
        let saved_target = liquidation_account.duplicate();
        let steps = self.liquidate_steps(
            account,
            liquidation_account,
            prices,
            in_assets,
            out_assets,
            &max_discount,
        );
        let outcome = match steps {
            Ok(()) => match self.compute_max_discount(liquidation_account, prices) {
                Ok(new_discount) => if max_discount.lt(&new_discount) {
                    Err(LendingError::HealthDecrease)
                } else {
                    Ok(())
                },
                Err(e) => Err(e),
            },
            Err(e) => Err(e),
        };
        if outcome.is_err() {
            self.assets = saved_assets;
            *account = saved_account;
            *liquidation_account = saved_target;
        }
        match outcome {
            Ok(()) => Ok(
                (
                    concat_farms(farms_of(in_assets, false), farms_of(out_assets, false)),
                    liquidation_target_farms(in_assets, out_assets),
                ),
            ),
            Err(e) => Err(e),
        }
    }
}

} // verus!
