//! Accounts: supplied, collateral and borrowed shares per listed asset.
use vstd::prelude::*;

use crate::error::LendingError;

verus! {

/// The most assets an account may hold as collateral or debt together.
pub const MAX_NUM_ASSETS: usize = 8;

/// An account's supplied shares of one asset.
#[derive(Clone, Copy, Debug, PartialEq, Eq, Structural)]
pub struct AccountAsset {
    pub shares: u128,
}

impl AccountAsset {
    pub fn new() -> (r: AccountAsset)
        ensures
            r.shares == 0,
    {
        AccountAsset { shares: 0 }
    }

    pub fn deposit_shares(&mut self, shares: u128)
        requires
            old(self).shares + shares <= u128::MAX,
        ensures
            final(self).shares == old(self).shares + shares,
    {
        self.shares = self.shares + shares;
    }

    /// Takes shares out; refused, unchanged, where there are not enough.
    pub fn withdraw_shares(&mut self, shares: u128) -> (r: Result<(), LendingError>)
        ensures
            r is Ok <==> shares <= old(self).shares,
            r is Ok ==> final(self).shares == old(self).shares - shares,
            r is Err ==> r->Err_0 == LendingError::InsufficientBalance && *final(self) == *old(self),
    {
        if shares > self.shares {
            return Err(LendingError::InsufficientBalance);
        }
        self.shares = self.shares - shares;
        Ok(())
    }

    pub fn is_empty(&self) -> (r: bool)
        ensures
            r == (self.shares == 0),
    {
        self.shares == 0
    }
}

/// An account's positions, one entry per listed asset, by the asset's index.
pub struct Account {
    pub account_id: String,
    /// Supplied shares not used as collateral.
    pub supplied: Vec<u128>,
    /// Supplied shares posted as collateral.
    pub collateral: Vec<u128>,
    /// Debt shares in the borrowed pool.
    pub borrowed: Vec<u128>,
}

/// The number of non-zero entries.
pub open spec fn count_nonzero(s: Seq<u128>) -> nat
    decreases s.len(),
{
    if s.len() == 0 {
        0
    } else {
        count_nonzero(s.drop_last()) + if s.last() != 0 {
            1nat
        } else {
            0nat
        }
    }
}

/// An empty position list of the given length.
pub fn zeros(n: usize) -> (r: Vec<u128>)
    ensures
        r@.len() == n,
        forall|i: int| 0 <= i < n ==> r@[i] == 0,
{
    let mut r: Vec<u128> = Vec::new();
    let mut i: usize = 0;
    while i < n
        invariant
            i <= n,
            r@.len() == i,
            forall|j: int| 0 <= j < i ==> r@[j] == 0,
        decreases n - i,
    {
        r.push(0);
        i = i + 1;
    }
    r
}

/// A copy of a position list.
pub fn copy_shares(v: &Vec<u128>) -> (r: Vec<u128>)
    ensures
        r@ == v@,
{
    let mut r: Vec<u128> = Vec::new();
    let mut i: usize = 0;
    while i < v.len()
        invariant
            i <= v@.len(),
            r@ == v@.subrange(0, i as int),
        decreases v@.len() - i,
    {
        r.push(v[i]);
        i = i + 1;
        assert(r@ =~= v@.subrange(0, i as int));
    }
    assert(r@ =~= v@);
    r
}

impl Account {
    /// A second account with the same id and positions.
    pub fn duplicate(&self) -> (r: Account)
        ensures
            r.account_id == self.account_id,
            r.supplied@ == self.supplied@,
            r.collateral@ == self.collateral@,
            r.borrowed@ == self.borrowed@,
    {
        Account {
            account_id: self.account_id.clone(),
            supplied: copy_shares(&self.supplied),
            collateral: copy_shares(&self.collateral),
            borrowed: copy_shares(&self.borrowed),
        }
    }

    /// An account with no positions in any of `num_assets` assets.
    pub fn new(account_id: &String, num_assets: usize) -> (r: Account)
        ensures
            r.account_id == *account_id,
            r.supplied@.len() == num_assets,
            r.collateral@.len() == num_assets,
            r.borrowed@.len() == num_assets,
            forall|i: int|
                0 <= i < num_assets ==> r.supplied@[i] == 0 && r.collateral@[i] == 0
                    && r.borrowed@[i] == 0,
    {
        Account {
            account_id: account_id.clone(),
            supplied: zeros(num_assets),
            collateral: zeros(num_assets),
            borrowed: zeros(num_assets),
        }
    }

    /// The number of assets the account holds as collateral or debt.
    pub open spec fn num_positions(&self) -> nat {
        count_nonzero(self.collateral@) + count_nonzero(self.borrowed@)
    }

    /// The number of assets the account holds as collateral or debt.
    pub fn get_num_positions(&self) -> (r: u128)
        requires
            self.collateral@.len() == self.borrowed@.len(),
        ensures
            r == self.num_positions(),
    {
        let mut n: u128 = 0;
        let mut i: usize = 0;
        while i < self.collateral.len()
            invariant
                i <= self.collateral@.len(),
                self.collateral@.len() == self.borrowed@.len(),
                n == count_nonzero(self.collateral@.subrange(0, i as int)) + count_nonzero(
                    self.borrowed@.subrange(0, i as int),
                ),
                n <= 2 * i,
            decreases self.collateral@.len() - i,
        {
            proof {
                assert(self.collateral@.subrange(0, i + 1).drop_last() =~= self.collateral@.subrange(
                    0,
                    i as int,
                ));
                assert(self.borrowed@.subrange(0, i + 1).drop_last() =~= self.borrowed@.subrange(
                    0,
                    i as int,
                ));
            }
            if self.collateral[i] != 0 {
                n = n + 1;
            }
            if self.borrowed[i] != 0 {
                n = n + 1;
            }
            i = i + 1;
        }
        assert(self.collateral@.subrange(0, i as int) =~= self.collateral@);
        assert(self.borrowed@.subrange(0, i as int) =~= self.borrowed@);
        n
    }

    /// Adds collateral shares of the asset at `index`.
    pub fn increase_collateral(&mut self, index: usize, shares: u128)
        requires
            index < old(self).collateral@.len(),
            old(self).collateral@[index as int] + shares <= u128::MAX,
        ensures
            final(self).collateral@ == old(self).collateral@.update(
                index as int,
                (old(self).collateral@[index as int] + shares) as u128,
            ),
            final(self).supplied@ == old(self).supplied@,
            final(self).borrowed@ == old(self).borrowed@,
            final(self).account_id == old(self).account_id,
    {
        let v = self.collateral[index];
        self.collateral.set(index, v + shares);
    }

    /// Removes collateral shares of the asset at `index`; refused,
    /// unchanged, where there are not enough.
    pub fn decrease_collateral(&mut self, index: usize, shares: u128) -> (r: Result<(), LendingError>)
        requires
            index < old(self).collateral@.len(),
        ensures
            r is Ok <==> shares <= old(self).collateral@[index as int],
            r is Ok ==> final(self).collateral@ == old(self).collateral@.update(
                index as int,
                (old(self).collateral@[index as int] - shares) as u128,
            ),
            r is Err ==> r->Err_0 == LendingError::InsufficientBalance && final(self).collateral@
                == old(self).collateral@,
            final(self).supplied@ == old(self).supplied@,
            final(self).borrowed@ == old(self).borrowed@,
            final(self).account_id == old(self).account_id,
    {
        let v = self.collateral[index];
        if shares > v {
            return Err(LendingError::InsufficientBalance);
        }
        self.collateral.set(index, v - shares);
        Ok(())
    }

    /// Adds debt shares of the asset at `index`.
    pub fn increase_borrowed(&mut self, index: usize, shares: u128)
        requires
            index < old(self).borrowed@.len(),
            old(self).borrowed@[index as int] + shares <= u128::MAX,
        ensures
            final(self).borrowed@ == old(self).borrowed@.update(
                index as int,
                (old(self).borrowed@[index as int] + shares) as u128,
            ),
            final(self).supplied@ == old(self).supplied@,
            final(self).collateral@ == old(self).collateral@,
            final(self).account_id == old(self).account_id,
    {
        let v = self.borrowed[index];
        self.borrowed.set(index, v + shares);
    }

    /// Removes debt shares of the asset at `index`; refused, unchanged, where
    /// there are not enough.
    pub fn decrease_borrowed(&mut self, index: usize, shares: u128) -> (r: Result<(), LendingError>)
        requires
            index < old(self).borrowed@.len(),
        ensures
            r is Ok <==> shares <= old(self).borrowed@[index as int],
            r is Ok ==> final(self).borrowed@ == old(self).borrowed@.update(
                index as int,
                (old(self).borrowed@[index as int] - shares) as u128,
            ),
            r is Err ==> r->Err_0 == LendingError::InsufficientBalance && final(self).borrowed@
                == old(self).borrowed@,
            final(self).supplied@ == old(self).supplied@,
            final(self).collateral@ == old(self).collateral@,
            final(self).account_id == old(self).account_id,
    {
        let v = self.borrowed[index];
        if shares > v {
            return Err(LendingError::InsufficientBalance);
        }
        self.borrowed.set(index, v - shares);
        Ok(())
    }

    /// Supplied and collateral shares of the asset at `index`.
    pub fn get_supplied_shares(&self, index: usize) -> (r: u128)
        requires
            index < self.supplied@.len(),
            index < self.collateral@.len(),
            self.supplied@[index as int] + self.collateral@[index as int] <= u128::MAX,
        ensures
            r == self.supplied@[index as int] + self.collateral@[index as int],
    {
        self.supplied[index] + self.collateral[index]
    }

    /// Debt shares of the asset at `index`.
    pub fn get_borrowed_shares(&self, index: usize) -> (r: u128)
        requires
            index < self.borrowed@.len(),
        ensures
            r == self.borrowed@[index as int],
    {
        self.borrowed[index]
    }
}

} // verus!
