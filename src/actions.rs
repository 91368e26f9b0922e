//! Accounts, the market registry and the actions run against them.
use vstd::prelude::*;

use crate::account::{Account, AccountAsset};
use crate::asset::Asset;
use crate::asset_config::AssetConfig;
use crate::big_decimal::BIG_DIVISOR;
use crate::conservation::moves_together;
use crate::error::LendingError;
use crate::pool::{amount_to_shares_spec, shares_to_amount_spec, Pool};

verus! {

/// A withdrawal whose outgoing transfer awaits its result.
pub struct PendingTransfer {
    pub token_id: String,
    pub amount: u128,
}

/// How much of an asset an action uses.
pub struct AssetAmount {
    pub token_id: String,
    /// The exact amount, where given.
    pub amount: Option<u128>,
    /// The most to use, where given and no exact amount is.
    pub max_amount: Option<u128>,
}

/// One step of a batch.
pub enum Action {
    Withdraw(AssetAmount),
    IncreaseCollateral(AssetAmount),
    DecreaseCollateral(AssetAmount),
    Borrow(AssetAmount),
    Repay(AssetAmount),
    Liquidate { account_id: String, in_assets: Vec<AssetAmount>, out_assets: Vec<AssetAmount> },
}

/// The shares and amount an action moves: by the exact amount where one is
/// given, else up to the maximum amount and the available shares, else all
/// available shares. Rounding favours the pool unless `inverse` is set.
pub open spec fn request_spec(
    pool: Pool,
    available: nat,
    amount: Option<u128>,
    max_amount: Option<u128>,
    inverse: bool,
) -> Result<(nat, nat), LendingError> {
    let (shares, amt) = match amount {
        Some(a) => (amount_to_shares_spec(pool, a as nat, !inverse), a as nat),
        None => match max_amount {
            Some(m) => {
                let wanted = amount_to_shares_spec(pool, m as nat, !inverse);
                let s = if available <= wanted {
                    available
                } else {
                    wanted
                };
                let value = shares_to_amount_spec(pool, s, inverse);
                (s, if value <= m {
                    value
                } else {
                    m as nat
                })
            },
            None => (available, shares_to_amount_spec(pool, available, inverse)),
        },
    };
    if shares > u128::MAX {
        Err(LendingError::Overflow)
    } else if shares == 0 || amt == 0 {
        Err(LendingError::ZeroAmountOrShares)
    } else {
        Ok((shares, amt))
    }
}

/// Resolves an asset amount into the shares and the amount it moves.
pub fn asset_amount_to_shares(
    pool: &Pool,
    available_shares: u128,
    asset_amount: &AssetAmount,
    inverse_round_direction: bool,
) -> (r: Result<(u128, u128), LendingError>)
    ensures
        match r {
            Ok((s, a)) => request_spec(
                *pool,
                available_shares as nat,
                asset_amount.amount,
                asset_amount.max_amount,
                inverse_round_direction,
            ) == Ok::<(nat, nat), LendingError>((s as nat, a as nat)),
            Err(e) => request_spec(
                *pool,
                available_shares as nat,
                asset_amount.amount,
                asset_amount.max_amount,
                inverse_round_direction,
            ) == Err::<(nat, nat), LendingError>(e),
        },
{
    let shares: u128;
    let amount: u128;
    match asset_amount.amount {
        Some(a) => {
            match pool.checked_amount_to_shares(a, !inverse_round_direction) {
                Some(s) => {
                    shares = s;
                    amount = a;
                },
                None => {
                    return Err(LendingError::Overflow);
                },
            }
        },
        None => {
            match asset_amount.max_amount {
                Some(m) => {
                    let wanted = pool.checked_amount_to_shares(m, !inverse_round_direction);
                    shares = match wanted {
                        Some(w) => if available_shares <= w {
                            available_shares
                        } else {
                            w
                        },
                        None => available_shares,
                    };
                    let value = pool.shares_to_amount(shares, inverse_round_direction);
                    amount = if value <= m {
                        value
                    } else {
                        m
                    };
                },
                None => {
                    shares = available_shares;
                    amount = pool.shares_to_amount(available_shares, inverse_round_direction);
                },
            }
        },
    }
    if shares == 0 || amount == 0 {
        return Err(LendingError::ZeroAmountOrShares);
    }
    Ok((shares, amount))
}

/// The listed assets, by index, with their token ids.
pub struct Contract {
    pub asset_ids: Vec<String>,
    pub assets: Vec<Asset>,
}

/// The two accounts hold the same positions.
pub open spec fn same_positions(a: &Account, b: &Account) -> bool {
    &&& a.supplied@ == b.supplied@
    &&& a.collateral@ == b.collateral@
    &&& a.borrowed@ == b.borrowed@
}

/// The registry's markets and the account's positions are as they were.
pub open spec fn unchanged(c1: &Contract, c0: &Contract, a1: &Account, a0: &Account) -> bool {
    c1.assets@ == c0.assets@ && same_positions(a1, a0)
}

/// `assets` with the supplied and borrowed pools of the asset at `i` replaced.
pub open spec fn with_pools(assets: Seq<Asset>, i: int, supplied: Pool, borrowed: Pool) -> Seq<Asset> {
    assets.update(i, Asset { supplied, borrowed, ..assets[i] })
}

/// The outcome of a withdrawal: the shares and the amount taken out.
pub open spec fn withdraw_spec(asset: Asset, supplied: nat, aa: &AssetAmount) -> Result<
    (nat, nat),
    LendingError,
> {
    match request_spec(asset.supplied, supplied, aa.amount, aa.max_amount, false) {
        Err(e) => Err(e),
        Ok((s, a)) => if s > supplied || s > asset.supplied.shares || a > asset.supplied.balance
            || asset.borrowed.balance
            > asset.supplied.balance - a + asset.reserved {
            Err(LendingError::InsufficientBalance)
        } else {
            Ok((s, a))
        },
    }
}

/// The outcome of moving supplied shares between their free and collateral
/// forms: the shares and the amount moved, out of `available` shares.
pub open spec fn move_spec(asset: Asset, available: nat, aa: &AssetAmount) -> Result<
    (nat, nat),
    LendingError,
> {
    match request_spec(asset.supplied, available, aa.amount, aa.max_amount, false) {
        Err(e) => Err(e),
        Ok((s, a)) => if s > available {
            Err(LendingError::InsufficientBalance)
        } else {
            Ok((s, a))
        },
    }
}

/// What can still be borrowed from an asset.
pub open spec fn available_spec(asset: Asset) -> nat {
    (asset.supplied.balance + asset.reserved - asset.borrowed.balance) as nat
}

/// The outcome of a borrow: the debt shares (rounded up, in the pool's
/// favour), the supplied shares credited and the amount. The debt is capped
/// by the available liquidity.
pub open spec fn borrow_spec(asset: Asset, aa: &AssetAmount) -> Result<(nat, nat, nat), LendingError> {
    let avail = available_spec(asset);
    let max_shares = amount_to_shares_spec(asset.borrowed, avail, false);
    let cap = if max_shares <= u128::MAX {
        max_shares
    } else {
        u128::MAX as nat
    };
    match request_spec(asset.borrowed, cap, aa.amount, aa.max_amount, false) {
        Err(e) => Err(e),
        Ok((bs, a)) => if a > avail {
            Err(LendingError::InsufficientBalance)
        } else {
            let ss = amount_to_shares_spec(asset.supplied, a, false);
            if ss > u128::MAX || asset.borrowed.shares + bs > u128::MAX || asset.supplied.shares + ss
                > u128::MAX || asset.supplied.balance + asset.reserved + a > u128::MAX {
                Err(LendingError::Overflow)
            } else {
                Ok((bs, ss, a))
            }
        },
    }
}

/// The outcome of repaying debt out of `payer` supplied shares: the debt
/// shares repaid, the supplied shares spent and the amount. Where the
/// payer's shares fall short, the repayment shrinks to what they are worth.
pub open spec fn repay_spec(asset: Asset, payer: nat, debt: nat, aa: &AssetAmount) -> Result<
    (nat, nat, nat),
    LendingError,
> {
    match request_spec(asset.borrowed, debt, aa.amount, aa.max_amount, true) {
        Err(e) => Err(e),
        Ok((bs0, a0)) => {
            let ss0 = amount_to_shares_spec(asset.supplied, a0, true);
            let plan: Result<(nat, nat, nat), LendingError> = if ss0 <= payer {
                Ok((bs0, ss0, a0))
            } else {
                let a = shares_to_amount_spec(asset.supplied, payer, false);
                let bs = amount_to_shares_spec(asset.borrowed, a, false);
                if aa.amount is Some && a < aa.amount->Some_0 {
                    Err(LendingError::InsufficientBalance)
                } else if a == 0 {
                    Err(LendingError::ZeroAmountOrShares)
                } else if bs > u128::MAX {
                    Err(LendingError::Overflow)
                } else if bs == 0 {
                    Err(LendingError::ZeroAmountOrShares)
                } else {
                    Ok((bs, payer, a))
                }
            };
            match plan {
                Err(e) => Err(e),
                Ok((bs, ss, a)) => if bs > debt || ss > asset.supplied.shares || a
                    > asset.supplied.balance || bs > asset.borrowed.shares || a
                    > asset.borrowed.balance {
                    Err(LendingError::InsufficientBalance)
                } else {
                    Ok((bs, ss, a))
                },
            }
        },
    }
}

impl Contract {
    /// The registry's invariant: one market per token id, each well formed.
    pub open spec fn wf(&self) -> bool {
        &&& self.asset_ids@.len() == self.assets@.len()
        &&& forall|i: int, j: int|
            0 <= i < j < self.asset_ids@.len() ==> self.asset_ids@[i]@ != self.asset_ids@[j]@
        &&& forall|i: int| 0 <= i < self.assets@.len() ==> (#[trigger] self.assets@[i]).wf()
        &&& forall|i: int|
            0 <= i < self.assets@.len() ==> (#[trigger] self.assets@[i]).config.volatility_ratio > 0
    }

    /// Whether `token` is listed at index `i`.
    pub open spec fn listed_at(&self, token: Seq<char>, i: int) -> bool {
        0 <= i < self.asset_ids@.len() && self.asset_ids@[i]@ == token
    }

    /// Whether `token` is listed.
    pub open spec fn listed(&self, token: Seq<char>) -> bool {
        exists|i: int| self.listed_at(token, i)
    }

    /// An account has one entry per listed asset.
    pub open spec fn fits(&self, account: &Account) -> bool {
        &&& account.supplied@.len() == self.assets@.len()
        &&& account.collateral@.len() == self.assets@.len()
        &&& account.borrowed@.len() == self.assets@.len()
    }

    /// Whether the registry keeps its invariant.
    pub fn check_wf(&self) -> (r: bool)
        ensures
            r == self.wf(),
    {
        let n = self.assets.len();
        if self.asset_ids.len() != n {
            return false;
        }
        let mut i: usize = 0;
        while i < n
            invariant
                n == self.assets@.len(),
                n == self.asset_ids@.len(),
                i <= n,
                forall|t: int| 0 <= t < i ==> (#[trigger] self.assets@[t]).wf(),
                forall|t: int| 0 <= t < i ==> (#[trigger] self.assets@[t]).config.volatility_ratio > 0,
            decreases n - i,
        {
            let a = self.assets[i];
            if !a.config.assert_valid() || a.config.target_utilization_rate.0 < BIG_DIVISOR
                || a.supplied.balance > u128::MAX - a.reserved || a.borrowed.balance
                > a.supplied.balance + a.reserved || a.config.volatility_ratio == 0 {
                assert(!(self.assets@[i as int].wf() && self.assets@[i as int].config.volatility_ratio > 0));
                return false;
            }
            i = i + 1;
        }
        let mut a: usize = 0;
        while a < n
            invariant
                n == self.asset_ids@.len(),
                a <= n,
                forall|x: int, y: int|
                    0 <= x < a && x < y < n ==> self.asset_ids@[x]@ != self.asset_ids@[y]@,
            decreases n - a,
        {
            let mut b: usize = a + 1;
            while b < n
                invariant
                    n == self.asset_ids@.len(),
                    a < n,
                    a + 1 <= b <= n,
                    forall|x: int, y: int|
                        0 <= x < a && x < y < n ==> self.asset_ids@[x]@ != self.asset_ids@[y]@,
                    forall|y: int| a < y < b ==> self.asset_ids@[a as int]@ != self.asset_ids@[y]@,
                decreases n - b,
            {
                if self.asset_ids[a] == self.asset_ids[b] {
                    return false;
                }
                b = b + 1;
            }
            a = a + 1;
        }
        true
    }

    /// The index of a listed token.
    pub fn find_asset(&self, token_id: &String) -> (r: Option<usize>)
        requires
            self.wf(),
        ensures
            match r {
                Some(i) => self.listed_at(token_id@, i as int),
                None => !self.listed(token_id@),
            },
    {
        let mut i: usize = 0;
        while i < self.asset_ids.len()
            invariant
                i <= self.asset_ids@.len(),
                forall|j: int| 0 <= j < i ==> self.asset_ids@[j]@ != token_id@,
            decreases self.asset_ids@.len() - i,
        {
            if self.asset_ids[i] == *token_id {
                return Some(i);
            }
            i = i + 1;
        }
        None
    }

    /// Withdraws supplied shares of an asset; the amount is what leaves the ledger.
    pub fn internal_withdraw(&mut self, account: &mut Account, asset_amount: &AssetAmount) -> (r:
        Result<u128, LendingError>)
        requires
            old(self).wf(),
            old(self).fits(old(account)),
        ensures
            final(self).wf(),
            final(self).fits(final(account)),
            final(account).account_id == old(account).account_id,
            !old(self).listed(asset_amount.token_id@) ==> r == Err::<u128, LendingError>(
                LendingError::AssetNotFound,
            ),
            forall|i: int|
                old(self).listed_at(asset_amount.token_id@, i) ==> match withdraw_spec(
                    old(self).assets@[i],
                    old(account).supplied@[i] as nat,
                    asset_amount,
                ) {
                    Err(e) => r == Err::<u128, LendingError>(e),
                    Ok((s, a)) => {
                        let asset = old(self).assets@[i];
                        &&& r == Ok::<u128, LendingError>(a as u128)
                        &&& final(self).assets@ == with_pools(
                            old(self).assets@,
                            i,
                            Pool {
                                shares: (asset.supplied.shares - s) as u128,
                                balance: (asset.supplied.balance - a) as u128,
                            },
                            asset.borrowed,
                        )
                        &&& final(account).supplied@ == old(account).supplied@.update(
                            i,
                            (old(account).supplied@[i] - s) as u128,
                        )
                        &&& final(account).collateral@ == old(account).collateral@
                        &&& final(account).borrowed@ == old(account).borrowed@
                    },
                },
            r is Err ==> final(self).assets@ == old(self).assets@ && same_positions(
                final(account),
                old(account),
            ),
            final(self).asset_ids@ == old(self).asset_ids@,
            forall|i: int|
                old(self).listed_at(asset_amount.token_id@, i) && r is Ok ==> moves_together(
                    old(self).assets@[i].supplied.shares as nat,
                    final(self).assets@[i].supplied.shares as nat,
                    (old(account).supplied@[i] + old(account).collateral@[i]) as nat,
                    (final(account).supplied@[i] + final(account).collateral@[i]) as nat,
                ),
    {
        let i = match self.find_asset(&asset_amount.token_id) {
            Some(i) => i,
            None => {
                return Err(LendingError::AssetNotFound);
            },
        };
        let mut asset = self.assets[i];
        let held = account.supplied[i];
        let (shares, amount) = match asset_amount_to_shares(&asset.supplied, held, asset_amount, false) {
            Ok(x) => x,
            Err(e) => {
                return Err(e);
            },
        };
        if shares > held || shares > asset.supplied.shares || amount > asset.supplied.balance
            || asset.borrowed.balance
            > asset.supplied.balance - amount + asset.reserved {
            return Err(LendingError::InsufficientBalance);
        }
        let _ = asset.supplied.withdraw(shares, amount);
        self.assets.set(i, asset);
        account.supplied.set(i, held - shares);
        Ok(amount)
    }

    /// Credits `amount` of a listed asset to the account's supplied shares,
    /// rounding the shares down.
    pub fn internal_deposit(&mut self, account: &mut Account, token_id: &String, amount: u128) -> (r:
        Result<u128, LendingError>)
        requires
            old(self).wf(),
            old(self).fits(old(account)),
        ensures
            final(self).wf(),
            final(self).fits(final(account)),
            final(self).asset_ids@ == old(self).asset_ids@,
            final(account).account_id == old(account).account_id,
            !old(self).listed(token_id@) ==> r is Err && r->Err_0 == LendingError::AssetNotFound,
            forall|i: int|
                old(self).listed_at(token_id@, i) ==> {
                    let asset = old(self).assets@[i];
                    let s = amount_to_shares_spec(asset.supplied, amount as nat, false);
                    if s > u128::MAX || asset.supplied.shares + s > u128::MAX
                        || asset.supplied.balance + asset.reserved + amount > u128::MAX
                        || old(account).supplied@[i] + s > u128::MAX {
                        r is Err && r->Err_0 == LendingError::Overflow
                    } else {
                        &&& r is Ok && r->Ok_0 == s
                        &&& final(self).assets@ == with_pools(
                            old(self).assets@,
                            i,
                            Pool {
                                shares: (asset.supplied.shares + s) as u128,
                                balance: (asset.supplied.balance + amount) as u128,
                            },
                            asset.borrowed,
                        )
                        &&& final(account).supplied@ == old(account).supplied@.update(
                            i,
                            (old(account).supplied@[i] + s) as u128,
                        )
                        &&& final(account).collateral@ == old(account).collateral@
                        &&& final(account).borrowed@ == old(account).borrowed@
                    }
                },
            r is Err ==> final(self).assets@ == old(self).assets@ && same_positions(
                final(account),
                old(account),
            ),
            forall|i: int|
                old(self).listed_at(token_id@, i) && r is Ok ==> moves_together(
                    old(self).assets@[i].supplied.shares as nat,
                    final(self).assets@[i].supplied.shares as nat,
                    (old(account).supplied@[i] + old(account).collateral@[i]) as nat,
                    (final(account).supplied@[i] + final(account).collateral@[i]) as nat,
                ),
    {
        let i = match self.find_asset(token_id) {
            Some(i) => i,
            None => {
                return Err(LendingError::AssetNotFound);
            },
        };
        let mut asset = self.assets[i];
        let held = account.supplied[i];
        let shares = match asset.supplied.checked_amount_to_shares(amount, false) {
            Some(x) => x,
            None => {
                return Err(LendingError::Overflow);
            },
        };
        if asset.supplied.shares > u128::MAX - shares || asset.supplied.balance + asset.reserved
            > u128::MAX - amount || held > u128::MAX - shares {
            return Err(LendingError::Overflow);
        }
        asset.supplied.deposit(shares, amount);
        self.assets.set(i, asset);
        account.supplied.set(i, held + shares);
        Ok(shares)
    }

    /// Moves supplied shares of an asset into collateral.
    pub fn internal_increase_collateral(&self, account: &mut Account, asset_amount: &AssetAmount) -> (r:
        Result<u128, LendingError>)
        requires
            self.wf(),
            self.fits(old(account)),
        ensures
            self.fits(final(account)),
            final(account).account_id == old(account).account_id,
            !self.listed(asset_amount.token_id@) ==> r is Err && r->Err_0
                == LendingError::AssetNotFound,
            forall|i: int|
                self.listed_at(asset_amount.token_id@, i) ==> match move_spec(
                    self.assets@[i],
                    old(account).supplied@[i] as nat,
                    asset_amount,
                ) {
                    Err(e) => r is Err && r->Err_0 == e,
                    Ok((s, a)) => if old(account).collateral@[i] + s > u128::MAX {
                        r is Err && r->Err_0 == LendingError::Overflow
                    } else {
                        &&& r is Ok && r->Ok_0 == a
                        &&& final(account).supplied@ == old(account).supplied@.update(
                            i,
                            (old(account).supplied@[i] - s) as u128,
                        )
                        &&& final(account).collateral@ == old(account).collateral@.update(
                            i,
                            (old(account).collateral@[i] + s) as u128,
                        )
                        &&& final(account).borrowed@ == old(account).borrowed@
                    },
                },
            r is Err ==> same_positions(final(account), old(account)),
    {
        let i = match self.find_asset(&asset_amount.token_id) {
            Some(i) => i,
            None => {
                return Err(LendingError::AssetNotFound);
            },
        };
        let held = account.supplied[i];
        let (shares, amount) = match asset_amount_to_shares(
            &self.assets[i].supplied,
            held,
            asset_amount,
            false,
        ) {
            Ok(x) => x,
            Err(e) => {
                return Err(e);
            },
        };
        if shares > held {
            return Err(LendingError::InsufficientBalance);
        }
        let posted = account.collateral[i];
        if posted > u128::MAX - shares {
            return Err(LendingError::Overflow);
        }
        account.supplied.set(i, held - shares);
        account.collateral.set(i, posted + shares);
        Ok(amount)
    }

    /// Moves collateral shares of an asset out of `account` into the supplied
    /// shares `account_asset`.
    pub fn internal_decrease_collateral(
        &self,
        account_asset: &mut AccountAsset,
        account: &mut Account,
        asset_amount: &AssetAmount,
    ) -> (r: Result<u128, LendingError>)
        requires
            self.wf(),
            self.fits(old(account)),
        ensures
            self.fits(final(account)),
            final(account).account_id == old(account).account_id,
            !self.listed(asset_amount.token_id@) ==> r is Err && r->Err_0
                == LendingError::AssetNotFound,
            forall|i: int|
                self.listed_at(asset_amount.token_id@, i) ==> match move_spec(
                    self.assets@[i],
                    old(account).collateral@[i] as nat,
                    asset_amount,
                ) {
                    Err(e) => r is Err && r->Err_0 == e,
                    Ok((s, a)) => if old(account_asset).shares + s > u128::MAX {
                        r is Err && r->Err_0 == LendingError::Overflow
                    } else {
                        &&& r is Ok && r->Ok_0 == a
                        &&& final(account_asset).shares == old(account_asset).shares + s
                        &&& final(account).collateral@ == old(account).collateral@.update(
                            i,
                            (old(account).collateral@[i] - s) as u128,
                        )
                        &&& final(account).supplied@ == old(account).supplied@
                        &&& final(account).borrowed@ == old(account).borrowed@
                    },
                },
            r is Err ==> same_positions(final(account), old(account)) && *final(account_asset)
                == *old(account_asset),
    {
        let i = match self.find_asset(&asset_amount.token_id) {
            Some(i) => i,
            None => {
                return Err(LendingError::AssetNotFound);
            },
        };
        let posted = account.collateral[i];
        let (shares, amount) = match asset_amount_to_shares(
            &self.assets[i].supplied,
            posted,
            asset_amount,
            false,
        ) {
            Ok(x) => x,
            Err(e) => {
                return Err(e);
            },
        };
        if shares > posted {
            return Err(LendingError::InsufficientBalance);
        }
        if account_asset.shares > u128::MAX - shares {
            return Err(LendingError::Overflow);
        }
        account.collateral.set(i, posted - shares);
        account_asset.deposit_shares(shares);
        Ok(amount)
    }

    /// Borrows an asset: debt shares for the account, and the borrowed amount
    /// credited to its supplied shares.
    pub fn internal_borrow(&mut self, account: &mut Account, asset_amount: &AssetAmount) -> (r:
        Result<u128, LendingError>)
        requires
            old(self).wf(),
            old(self).fits(old(account)),
        ensures
            final(self).wf(),
            final(self).fits(final(account)),
            final(self).asset_ids@ == old(self).asset_ids@,
            final(account).account_id == old(account).account_id,
            !old(self).listed(asset_amount.token_id@) ==> r is Err && r->Err_0
                == LendingError::AssetNotFound,
            forall|i: int|
                old(self).listed_at(asset_amount.token_id@, i) ==> match borrow_spec(
                    old(self).assets@[i],
                    asset_amount,
                ) {
                    Err(e) => r is Err && r->Err_0 == e,
                    Ok((bs, ss, a)) => if old(account).borrowed@[i] + bs > u128::MAX || old(
                        account,
                    ).supplied@[i] + ss > u128::MAX {
                        r is Err && r->Err_0 == LendingError::Overflow
                    } else {
                        let asset = old(self).assets@[i];
                        &&& r is Ok && r->Ok_0 == a
                        &&& final(self).assets@ == with_pools(
                            old(self).assets@,
                            i,
                            Pool {
                                shares: (asset.supplied.shares + ss) as u128,
                                balance: (asset.supplied.balance + a) as u128,
                            },
                            Pool {
                                shares: (asset.borrowed.shares + bs) as u128,
                                balance: (asset.borrowed.balance + a) as u128,
                            },
                        )
                        &&& final(account).supplied@ == old(account).supplied@.update(
                            i,
                            (old(account).supplied@[i] + ss) as u128,
                        )
                        &&& final(account).borrowed@ == old(account).borrowed@.update(
                            i,
                            (old(account).borrowed@[i] + bs) as u128,
                        )
                        &&& final(account).collateral@ == old(account).collateral@
                    },
                },
            r is Err ==> final(self).assets@ == old(self).assets@ && same_positions(
                final(account),
                old(account),
            ),
            forall|i: int|
                old(self).listed_at(asset_amount.token_id@, i) && r is Ok ==> moves_together(
                    old(self).assets@[i].supplied.shares as nat,
                    final(self).assets@[i].supplied.shares as nat,
                    (old(account).supplied@[i] + old(account).collateral@[i]) as nat,
                    (final(account).supplied@[i] + final(account).collateral@[i]) as nat,
                ),
            forall|i: int|
                old(self).listed_at(asset_amount.token_id@, i) && r is Ok ==> moves_together(
                    old(self).assets@[i].borrowed.shares as nat,
                    final(self).assets@[i].borrowed.shares as nat,
                    old(account).borrowed@[i] as nat,
                    final(account).borrowed@[i] as nat,
                ),
    {
        let i = match self.find_asset(&asset_amount.token_id) {
            Some(i) => i,
            None => {
                return Err(LendingError::AssetNotFound);
            },
        };
        let mut asset = self.assets[i];
        let available_amount = asset.available_amount();
        let max_borrow_shares = match asset.borrowed.checked_amount_to_shares(
            available_amount,
            false,
        ) {
            Some(x) => x,
            None => u128::MAX,
        };
        let (borrowed_shares, amount) = match asset_amount_to_shares(
            &asset.borrowed,
            max_borrow_shares,
            asset_amount,
            false,
        ) {
            Ok(x) => x,
            Err(e) => {
                return Err(e);
            },
        };
        if amount > available_amount {
            return Err(LendingError::InsufficientBalance);
        }
        let supplied_shares = match asset.supplied.checked_amount_to_shares(amount, false) {
            Some(x) => x,
            None => {
                return Err(LendingError::Overflow);
            },
        };
        if asset.borrowed.shares > u128::MAX - borrowed_shares || asset.supplied.shares > u128::MAX
            - supplied_shares || asset.supplied.balance + asset.reserved > u128::MAX - amount {
            return Err(LendingError::Overflow);
        }
        let debt = account.borrowed[i];
        let held = account.supplied[i];
        if debt > u128::MAX - borrowed_shares || held > u128::MAX - supplied_shares {
            return Err(LendingError::Overflow);
        }
        asset.borrowed.deposit(borrowed_shares, amount);
        asset.supplied.deposit(supplied_shares, amount);
        self.assets.set(i, asset);
        account.borrowed.set(i, debt + borrowed_shares);
        account.supplied.set(i, held + supplied_shares);
        Ok(amount)
    }

    /// Repays debt of `account` out of the supplied shares `account_asset`.
    pub fn internal_repay(
        &mut self,
        account_asset: &mut AccountAsset,
        account: &mut Account,
        asset_amount: &AssetAmount,
    ) -> (r: Result<u128, LendingError>)
        requires
            old(self).wf(),
            old(self).fits(old(account)),
        ensures
            final(self).wf(),
            final(self).fits(final(account)),
            final(self).asset_ids@ == old(self).asset_ids@,
            final(account).account_id == old(account).account_id,
            !old(self).listed(asset_amount.token_id@) ==> r is Err && r->Err_0
                == LendingError::AssetNotFound,
            forall|i: int|
                old(self).listed_at(asset_amount.token_id@, i) ==> match repay_spec(
                    old(self).assets@[i],
                    old(account_asset).shares as nat,
                    old(account).borrowed@[i] as nat,
                    asset_amount,
                ) {
                    Err(e) => r is Err && r->Err_0 == e,
                    Ok((bs, ss, a)) => {
                        let asset = old(self).assets@[i];
                        &&& r is Ok && r->Ok_0 == a
                        &&& final(self).assets@ == with_pools(
                            old(self).assets@,
                            i,
                            Pool {
                                shares: (asset.supplied.shares - ss) as u128,
                                balance: (asset.supplied.balance - a) as u128,
                            },
                            Pool {
                                shares: (asset.borrowed.shares - bs) as u128,
                                balance: (asset.borrowed.balance - a) as u128,
                            },
                        )
                        &&& final(account_asset).shares == old(account_asset).shares - ss
                        &&& final(account).borrowed@ == old(account).borrowed@.update(
                            i,
                            (old(account).borrowed@[i] - bs) as u128,
                        )
                        &&& final(account).supplied@ == old(account).supplied@
                        &&& final(account).collateral@ == old(account).collateral@
                    },
                },
            r is Err ==> final(self).assets@ == old(self).assets@ && same_positions(
                final(account),
                old(account),
            ) && *final(account_asset) == *old(account_asset),
            forall|i: int|
                old(self).listed_at(asset_amount.token_id@, i) && r is Ok ==> moves_together(
                    old(self).assets@[i].borrowed.shares as nat,
                    final(self).assets@[i].borrowed.shares as nat,
                    old(account).borrowed@[i] as nat,
                    final(account).borrowed@[i] as nat,
                ),
            forall|i: int|
                old(self).listed_at(asset_amount.token_id@, i) && r is Ok ==> moves_together(
                    old(self).assets@[i].supplied.shares as nat,
                    final(self).assets@[i].supplied.shares as nat,
                    old(account_asset).shares as nat,
                    final(account_asset).shares as nat,
                ),
    {
        let i = match self.find_asset(&asset_amount.token_id) {
            Some(i) => i,
            None => {
                return Err(LendingError::AssetNotFound);
            },
        };
        let mut asset = self.assets[i];
        let debt = account.borrowed[i];
        let payer = account_asset.shares;
        let (bs0, a0) = match asset_amount_to_shares(&asset.borrowed, debt, asset_amount, true) {
            Ok(x) => x,
            Err(e) => {
                return Err(e);
            },
        };
        let borrowed_shares: u128;
        let supplied_shares: u128;
        let amount: u128;
        let covered = match asset.supplied.checked_amount_to_shares(a0, true) {
            Some(x) => if x <= payer {
                Some(x)
            } else {
                None
            },
            None => None,
        };
        match covered {
            Some(x) => {
                borrowed_shares = bs0;
                supplied_shares = x;
                amount = a0;
            },
            None => {
                let a = asset.supplied.shares_to_amount(payer, false);
                match asset_amount.amount {
                    Some(min_amount) => {
                        if a < min_amount {
                            return Err(LendingError::InsufficientBalance);
                        }
                    },
                    None => {},
                }
                if a == 0 {
                    return Err(LendingError::ZeroAmountOrShares);
                }
                let bs = match asset.borrowed.checked_amount_to_shares(a, false) {
                    Some(x) => x,
                    None => {
                        return Err(LendingError::Overflow);
                    },
                };
                if bs == 0 {
                    return Err(LendingError::ZeroAmountOrShares);
                }
                borrowed_shares = bs;
                supplied_shares = payer;
                amount = a;
            },
        }
        if borrowed_shares > debt || supplied_shares > asset.supplied.shares || amount
            > asset.supplied.balance || borrowed_shares > asset.borrowed.shares || amount
            > asset.borrowed.balance {
            return Err(LendingError::InsufficientBalance);
        }
        let _ = asset.supplied.withdraw(supplied_shares, amount);
        let _ = asset.borrowed.withdraw(borrowed_shares, amount);
        self.assets.set(i, asset);
        account.borrowed.set(i, debt - borrowed_shares);
        let _ = account_asset.withdraw_shares(supplied_shares);
        Ok(amount)
    }

    /// Lists a new asset with empty pools; refused, unchanged, where the
    /// token is already listed or the configuration is invalid.
    pub fn add_asset(&mut self, token_id: &String, asset_config: AssetConfig, timestamp: u64) -> (r:
        bool)
        requires
            old(self).wf(),
        ensures
            final(self).wf(),
            r == (!old(self).listed(token_id@) && asset_config.valid()
                && asset_config.rates_at_least_one() && asset_config.volatility_ratio > 0),
            r ==> final(self).asset_ids@ == old(self).asset_ids@.push(*token_id)
                && final(self).assets@ == old(self).assets@.push(
                Asset {
                    supplied: Pool { shares: 0, balance: 0 },
                    borrowed: Pool { shares: 0, balance: 0 },
                    reserved: 0,
                    last_update_timestamp: timestamp,
                    config: asset_config,
                },
            ),
            !r ==> final(self).asset_ids@ == old(self).asset_ids@ && final(self).assets@ == old(
                self,
            ).assets@,
    {
        if self.find_asset(token_id).is_some() || !asset_config.assert_valid()
            || asset_config.target_utilization_rate.0 < BIG_DIVISOR
            || asset_config.volatility_ratio == 0 {
            return false;
        }
        self.asset_ids.push(token_id.clone());
        self.assets.push(Asset::new(timestamp, asset_config));
        proof {
            assert forall|i: int, j: int|
                0 <= i < j < self.asset_ids@.len() implies self.asset_ids@[i]@
                != self.asset_ids@[j]@ by {
                if j == self.asset_ids@.len() - 1 {
                    assert(!old(self).listed_at(token_id@, i));
                }
            }
        }
        true
    }

    /// Replaces the configuration of a listed asset; refused, unchanged,
    /// where the token is not listed or the configuration is invalid.
    pub fn update_asset(&mut self, token_id: &String, asset_config: AssetConfig) -> (r: bool)
        requires
            old(self).wf(),
        ensures
            final(self).wf(),
            final(self).asset_ids@ == old(self).asset_ids@,
            r == (old(self).listed(token_id@) && asset_config.valid()
                && asset_config.rates_at_least_one() && asset_config.volatility_ratio > 0),
            forall|i: int|
                r && old(self).listed_at(token_id@, i) ==> final(self).assets@ == old(
                    self,
                ).assets@.update(i, Asset { config: asset_config, ..old(self).assets@[i] }),
            !r ==> final(self).assets@ == old(self).assets@,
    {
        let i = match self.find_asset(token_id) {
            Some(i) => i,
            None => {
                return false;
            },
        };
        if !asset_config.assert_valid() || asset_config.target_utilization_rate.0 < BIG_DIVISOR
            || asset_config.volatility_ratio == 0 {
            return false;
        }
        let mut asset = self.assets[i];
        asset.config = asset_config;
        self.assets.set(i, asset);
        true
    }

    /// Settles an outgoing transfer of a withdrawal, once, and returns
    /// whether the transfer succeeded: where a transfer is pending and
    /// failed, its amount is credited back to the account's supplied shares;
    /// the pending record is cleared either way. With no pending transfer
    /// nothing changes, so a replayed callback is harmless.
    pub fn after_ft_transfer(
        &mut self,
        account: &mut Account,
        pending: &mut Option<PendingTransfer>,
        transfer_succeeded: bool,
    ) -> (r: Result<bool, LendingError>)
        requires
            old(self).wf(),
            old(self).fits(old(account)),
        ensures
            final(self).wf(),
            final(self).fits(final(account)),
            final(self).asset_ids@ == old(self).asset_ids@,
            final(account).account_id == old(account).account_id,
            *old(pending) is None ==> r is Ok && r->Ok_0 == transfer_succeeded && unchanged(
                final(self),
                old(self),
                final(account),
                old(account),
            ) && *final(pending) is None,
            transfer_succeeded ==> r is Ok && r->Ok_0 == true && unchanged(
                final(self),
                old(self),
                final(account),
                old(account),
            ) && *final(pending) is None,
            *old(pending) is Some && !transfer_succeeded && !old(self).listed(
                (*old(pending))->Some_0.token_id@,
            ) ==> r is Err && r->Err_0 == LendingError::AssetNotFound,
            forall|i: int|
                *old(pending) is Some && !transfer_succeeded && old(self).listed_at(
                    (*old(pending))->Some_0.token_id@,
                    i,
                ) ==> {
                    let asset = old(self).assets@[i];
                    let amount = (*old(pending))->Some_0.amount;
                    let s = amount_to_shares_spec(asset.supplied, amount as nat, false);
                    if s > u128::MAX || asset.supplied.shares + s > u128::MAX
                        || asset.supplied.balance + asset.reserved + amount > u128::MAX
                        || old(account).supplied@[i] + s > u128::MAX {
                        r is Err && r->Err_0 == LendingError::Overflow
                    } else {
                        &&& r is Ok && r->Ok_0 == false
                        &&& *final(pending) is None
                        &&& final(self).assets@ == with_pools(
                            old(self).assets@,
                            i,
                            Pool {
                                shares: (asset.supplied.shares + s) as u128,
                                balance: (asset.supplied.balance + amount) as u128,
                            },
                            asset.borrowed,
                        )
                        &&& final(account).supplied@ == old(account).supplied@.update(
                            i,
                            (old(account).supplied@[i] + s) as u128,
                        )
                        &&& final(account).collateral@ == old(account).collateral@
                        &&& final(account).borrowed@ == old(account).borrowed@
                    }
                },
            r is Err ==> unchanged(final(self), old(self), final(account), old(account))
                && *final(pending) == *old(pending),
            forall|i: int|
                *old(pending) is Some && !transfer_succeeded && r is Ok && old(self).listed_at(
                    (*old(pending))->Some_0.token_id@,
                    i,
                ) ==> moves_together(
                    old(self).assets@[i].supplied.shares as nat,
                    final(self).assets@[i].supplied.shares as nat,
                    (old(account).supplied@[i] + old(account).collateral@[i]) as nat,
                    (final(account).supplied@[i] + final(account).collateral@[i]) as nat,
                ),
    {
        let (token_id, amount) = match pending {
            Some(p) => (p.token_id.clone(), p.amount),
            None => {
                return Ok(transfer_succeeded);
            },
        };
        if transfer_succeeded {
            *pending = None;
            return Ok(true);
        }
        match self.internal_deposit(account, &token_id, amount) {
            Ok(_) => {
                *pending = None;
                Ok(false)
            },
            Err(e) => Err(e),
        }
    }

    /// The listed assets from `from_index` up to, not including, `limit`
    /// (both bounded by the number of assets).
    pub fn get_assets_paged(&self, from_index: Option<u64>, limit: Option<u64>) -> (r: Vec<
        (String, Asset),
    >)
        requires
            self.wf(),
        ensures
            ({
                let len = self.assets@.len();
                let from = match from_index {
                    Some(f) => f as int,
                    None => 0,
                };
                let end = match limit {
                    Some(l) => if (l as int) < len {
                        l as int
                    } else {
                        len as int
                    },
                    None => len as int,
                };
                &&& r@.len() == if from < end {
                    end - from
                } else {
                    0
                }
                &&& forall|k: int|
                    0 <= k < r@.len() ==> (#[trigger] r@[k]).0 == self.asset_ids@[from + k]
                        && r@[k].1 == self.assets@[from + k]
            }),
    {
        unordered_map_pagination(&self.asset_ids, &self.assets, from_index, limit)
    }
}

/// The entries of parallel key and value lists from `from_index` up to, not
/// including, `limit` (both bounded by the length).
pub fn unordered_map_pagination(
    keys: &Vec<String>,
    values: &Vec<Asset>,
    from_index: Option<u64>,
    limit: Option<u64>,
) -> (r: Vec<(String, Asset)>)
    requires
        keys@.len() == values@.len(),
    ensures
        ({
            let len = keys@.len();
            let from = match from_index {
                Some(f) => f as int,
                None => 0,
            };
            let end = match limit {
                Some(l) => if (l as int) < len {
                    l as int
                } else {
                    len as int
                },
                None => len as int,
            };
            &&& r@.len() == if from < end {
                end - from
            } else {
                0
            }
            &&& forall|k: int|
                0 <= k < r@.len() ==> (#[trigger] r@[k]).0 == keys@[from + k] && r@[k].1
                    == values@[from + k]
        }),
{
    let len = keys.len();
    let from: usize = match from_index {
        Some(f) => if (f as u128) < (len as u128) {
            f as usize
        } else {
            len
        },
        None => 0,
    };
    let end: usize = match limit {
        Some(l) => if (l as u128) < (len as u128) {
            l as usize
        } else {
            len
        },
        None => len,
    };
    let mut r: Vec<(String, Asset)> = Vec::new();
    let mut i: usize = from;
    while i < end
        invariant
            from <= len,
            end <= len,
            len == keys@.len(),
            len == values@.len(),
            from <= i <= end || (i == from && from >= end),
            r@.len() == i - from,
            forall|k: int|
                0 <= k < r@.len() ==> (#[trigger] r@[k]).0 == keys@[from + k] && r@[k].1
                    == values@[from + k],
        decreases end - i,
    {
        r.push((keys[i].clone(), values[i]));
        i = i + 1;
    }
    r
}

} // verus!