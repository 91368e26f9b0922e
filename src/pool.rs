//! A share ledger: proportional ownership of one side of one asset.
use vstd::prelude::*;

use crate::error::LendingError;
use crate::utils::{checked_mul_add_div, mul_add_div};

verus! {

/// Shares outstanding and the balance they stand for.
#[derive(Clone, Copy, Debug, PartialEq, Eq, Structural)]
pub struct Pool {
    pub shares: u128,
    pub balance: u128,
}

/// The shares that `amount` buys: one for one in an empty pool, else in
/// proportion, rounded down or up.
pub open spec fn amount_to_shares_spec(pool: Pool, amount: nat, round_up: bool) -> nat {
    if pool.balance == 0 {
        amount
    } else if round_up {
        ((pool.shares * amount + pool.balance - 1) / (pool.balance as int)) as nat
    } else {
        ((pool.shares * amount) / (pool.balance as int)) as nat
    }
}

/// The balance that `shares` stand for: the whole balance for all shares or
/// more, else in proportion, rounded down or up.
pub open spec fn shares_to_amount_spec(pool: Pool, shares: nat, round_up: bool) -> nat {
    if shares >= pool.shares {
        pool.balance as nat
    } else if round_up {
        ((pool.balance * shares + pool.shares - 1) / (pool.shares as int)) as nat
    } else {
        ((pool.balance * shares) / (pool.shares as int)) as nat
    }
}

/// Monotonic exchange rate: with the shares outstanding fixed, a pool whose
/// balance grew (as interest makes it grow) gives every share count at
/// least the balance it gave before.
pub proof fn lemma_exchange_rate_monotonic(before: Pool, after: Pool, shares: nat, round_up: bool)
    requires
        after.shares == before.shares,
        after.balance >= before.balance,
    ensures
        shares_to_amount_spec(after, shares, round_up) >= shares_to_amount_spec(
            before,
            shares,
            round_up,
        ),
{
    if shares < before.shares {
        let extra: int = if round_up {
            before.shares - 1
        } else {
            0
        };
        assert(before.balance * shares + extra <= after.balance * shares + extra) by (nonlinear_arith)
            requires
                after.balance >= before.balance,
                shares >= 0,
        ;
        vstd::arithmetic::div_mod::lemma_div_is_ordered(
            before.balance * shares + extra,
            after.balance * shares + extra,
            before.shares as int,
        );
    }
}

/// A deposit at the shares `amount_to_shares` gives, rounded down, never
/// lowers the balance each share stands for:
/// `new_balance / new_shares >= old_balance / old_shares`.
pub proof fn lemma_deposit_keeps_exchange_rate(before: Pool, amount: nat)
    requires
        before.balance > 0,
        before.shares > 0,
    ensures
        ({
            let s = amount_to_shares_spec(before, amount, false);
            (before.balance + amount) * before.shares >= before.balance * (before.shares + s)
        }),
{
    let b = before.balance as int;
    let t = before.shares as int;
    let a = amount as int;
    let s = (t * a) / b;
    vstd::arithmetic::div_mod::lemma_fundamental_div_mod(t * a, b);
    vstd::arithmetic::div_mod::lemma_mod_pos_bound(t * a, b);
    assert(b * s <= t * a);
    assert((b + a) * t >= b * (t + s)) by (nonlinear_arith)
        requires
            b * s <= t * a,
    ;
}

impl Pool {
    pub fn new() -> (r: Pool)
        ensures
            r.shares == 0,
            r.balance == 0,
    {
        Pool { shares: 0, balance: 0 }
    }

    /// Converts an amount to shares; `round_up` picks the rounding direction.
    pub fn amount_to_shares(&self, amount: u128, round_up: bool) -> (r: u128)
        requires
            amount_to_shares_spec(*self, amount as nat, round_up) <= u128::MAX,
        ensures
            r == amount_to_shares_spec(*self, amount as nat, round_up),
    {
        if self.balance == 0 {
            amount
        } else {
            let extra: u128 = if round_up {
                self.balance - 1
            } else {
                0
            };
            mul_add_div(self.shares, amount, extra, self.balance)
        }
    }

    /// Converts an amount to shares, or `None` where the shares would not fit.
    pub fn checked_amount_to_shares(&self, amount: u128, round_up: bool) -> (r: Option<u128>)
        ensures
            r == (if amount_to_shares_spec(*self, amount as nat, round_up) <= u128::MAX {
                Some(amount_to_shares_spec(*self, amount as nat, round_up) as u128)
            } else {
                None::<u128>
            }),
    {
        if self.balance == 0 {
            Some(amount)
        } else {
            let extra: u128 = if round_up {
                self.balance - 1
            } else {
                0
            };
            checked_mul_add_div(self.shares, amount, extra, self.balance)
        }
    }

    /// Converts shares to an amount; `round_up` picks the rounding direction.
    pub fn shares_to_amount(&self, shares: u128, round_up: bool) -> (r: u128)
        ensures
            r == shares_to_amount_spec(*self, shares as nat, round_up),
            r <= self.balance,
    {
        if shares >= self.shares {
            self.balance
        } else {
            let extra: u128 = if round_up {
                self.shares - 1
            } else {
                0
            };
            let ghost b = self.balance as int;
            let ghost t = self.shares as int;
            proof {
                assert((b * shares + extra) / t <= b) by (nonlinear_arith)
                    requires
                        0 <= shares < t,
                        0 <= extra < t,
                        b >= 0,
                {
                    assert(b * shares + extra < (b + 1) * t) by (nonlinear_arith)
                        requires
                            0 <= shares < t,
                            0 <= extra < t,
                            b >= 0,
                    ;
                    vstd::arithmetic::div_mod::lemma_div_is_ordered(
                        b * shares + extra,
                        (b + 1) * t - 1,
                        t,
                    );
                    vstd::arithmetic::div_mod::lemma_fundamental_div_mod_converse(
                        (b + 1) * t - 1,
                        t,
                        b,
                        t - 1,
                    );
                }
            }
            mul_add_div(self.balance, shares, extra, self.shares)
        }
    }

    /// Adds shares and the amount they stand for.
    pub fn deposit(&mut self, shares: u128, amount: u128)
        requires
            old(self).shares + shares <= u128::MAX,
            old(self).balance + amount <= u128::MAX,
        ensures
            final(self).shares == old(self).shares + shares,
            final(self).balance == old(self).balance + amount,
    {
        self.shares = self.shares + shares;
        self.balance = self.balance + amount;
    }

    /// Removes shares and the amount they stand for; refused, with the pool
    /// unchanged, where either would go below zero.
    pub fn withdraw(&mut self, shares: u128, amount: u128) -> (r: Result<(), LendingError>)
        ensures
            r is Ok <==> (shares <= old(self).shares && amount <= old(self).balance),
            r is Ok ==> final(self).shares == old(self).shares - shares && final(self).balance
                == old(self).balance - amount,
            r is Err ==> r->Err_0 == LendingError::InsufficientBalance && *final(self) == *old(self),
    {
        if shares > self.shares || amount > self.balance {
            return Err(LendingError::InsufficientBalance);
        }
        self.shares = self.shares - shares;
        self.balance = self.balance - amount;
        Ok(())
    }
}

} // verus!
