//! The market of one asset: its two pools, its reserve and interest compounding.
use vstd::prelude::*;

use crate::asset_config::AssetConfig;
use crate::big_decimal::{
    mul_spec, pow_spec, pow_steps, BigDecimal, BIG_DIVISOR, HALF_DIVISOR, MAX_RATIO,
};
use crate::pool::Pool;
use crate::utils::{ms_to_nano, nano_to_ms, ratio, NANOS_PER_MS};

verus! {

/// The state of one listed asset.
#[derive(Clone, Copy, Debug, PartialEq, Eq, Structural)]
pub struct Asset {
    /// Total supplied, collateral included, reserve excluded.
    pub supplied: Pool,
    /// Total borrowed.
    pub borrowed: Pool,
    /// The reserve; it can be borrowed too and counts toward the rate.
    pub reserved: u128,
    /// When interest was last compounded, in nanoseconds.
    pub last_update_timestamp: u64,
    pub config: AssetConfig,
}

/// A product of two factors of at least one is at least the second factor.
pub proof fn lemma_mul_spec_grows(a: nat, b: nat)
    requires
        a >= BIG_DIVISOR,
    ensures
        mul_spec(a, b) >= b,
{
    let big = BIG_DIVISOR as int;
    assert(a * b + HALF_DIVISOR >= b * big) by (nonlinear_arith)
        requires
            a >= big,
    ;
    vstd::arithmetic::div_mod::lemma_div_is_ordered(b * big, a * b + HALF_DIVISOR, big);
    vstd::arithmetic::div_mod::lemma_div_multiples_vanish(b as int, big);
}

/// Squaring factors of at least one gives at least one.
pub proof fn lemma_pow_steps_at_least_one(acc: nat, x: nat, e: nat)
    requires
        acc >= BIG_DIVISOR,
        x >= BIG_DIVISOR,
    ensures
        pow_steps(acc, x, e) >= BIG_DIVISOR,
    decreases e,
{
    if e > 0 {
        lemma_mul_spec_grows(x, acc);
        lemma_mul_spec_grows(x, x);
        let acc2 = if e % 2 == 1 {
            mul_spec(acc, x)
        } else {
            acc
        };
        assert(mul_spec(acc, x) == mul_spec(x, acc)) by {
            assert(acc * x == x * acc) by (nonlinear_arith);
        }
        lemma_pow_steps_at_least_one(
            acc2,
            if e / 2 != 0 {
                mul_spec(x, x)
            } else {
                x
            },
            e / 2,
        );
    }
}

impl Asset {
    /// The market's invariant: a valid configuration, and liquidity that is
    /// never negative.
    pub open spec fn wf(&self) -> bool {
        &&& self.config.valid()
        &&& self.config.rates_at_least_one()
        &&& self.supplied.balance + self.reserved <= u128::MAX
        &&& self.borrowed.balance <= self.supplied.balance + self.reserved
    }

    /// The current per-millisecond rate.
    pub open spec fn rate(&self) -> nat {
        self.config.rate_spec(self.borrowed.balance as nat, (self.supplied.balance + self.reserved) as nat)
    }

    /// The interest that `time_diff_ms` milliseconds add to the borrowed balance.
    pub open spec fn interest(&self, time_diff_ms: nat) -> nat {
        ((pow_spec(self.rate(), time_diff_ms) * self.borrowed.balance + HALF_DIVISOR) / (
        BIG_DIVISOR as int) - self.borrowed.balance) as nat
    }

    /// The state after compounding `time_diff_ms` milliseconds of interest:
    /// the interest is added to the debt, and split between the reserve and
    /// the suppliers.
    pub open spec fn compounded(&self, time_diff_ms: nat) -> Asset {
        let interest = self.interest(time_diff_ms);
        let reserve_cut = (interest * self.config.reserve_ratio) / (MAX_RATIO as int);
        Asset {
            supplied: Pool {
                shares: self.supplied.shares,
                balance: (self.supplied.balance + interest - reserve_cut) as u128,
            },
            borrowed: Pool {
                shares: self.borrowed.shares,
                balance: (self.borrowed.balance + interest) as u128,
            },
            reserved: (self.reserved + reserve_cut) as u128,
            ..*self
        }
    }

    /// Whether compounding `time_diff_ms` milliseconds keeps the balances in range.
    pub open spec fn can_compound(&self, time_diff_ms: nat) -> bool {
        self.supplied.balance + self.reserved + self.interest(time_diff_ms) <= u128::MAX
    }

    /// The rate at least one, so interest never goes below zero.
    pub proof fn lemma_rate_at_least_one(&self, time_diff_ms: nat)
        requires
            self.wf(),
        ensures
            self.rate() >= BIG_DIVISOR,
            pow_spec(self.rate(), time_diff_ms) >= BIG_DIVISOR,
            (pow_spec(self.rate(), time_diff_ms) * self.borrowed.balance + HALF_DIVISOR) / (
            BIG_DIVISOR as int) >= self.borrowed.balance,
    {
        lemma_pow_steps_at_least_one(BIG_DIVISOR as nat, self.rate(), time_diff_ms);
        lemma_mul_spec_grows(pow_spec(self.rate(), time_diff_ms), self.borrowed.balance as nat);
    }

    /// A new market with empty pools.
    pub fn new(timestamp: u64, config: AssetConfig) -> (r: Asset)
        ensures
            r.supplied == (Pool { shares: 0, balance: 0 }),
            r.borrowed == (Pool { shares: 0, balance: 0 }),
            r.reserved == 0,
            r.last_update_timestamp == timestamp,
            r.config == config,
            config.valid() && config.rates_at_least_one() ==> r.wf(),
    {
        Asset {
            supplied: Pool::new(),
            borrowed: Pool::new(),
            reserved: 0,
            last_update_timestamp: timestamp,
            config,
        }
    }

    /// The current per-millisecond compounding factor.
    pub fn get_rate(&self) -> (r: BigDecimal)
        requires
            self.wf(),
        ensures
            r@ == self.rate(),
    {
        self.config.get_rate(self.borrowed.balance, self.supplied.balance + self.reserved)
    }

    /// Compounds `time_diff_ms` milliseconds of interest.
    pub fn compound(&mut self, time_diff_ms: u64)
        requires
            old(self).wf(),
            old(self).can_compound(time_diff_ms as nat),
        ensures
            *final(self) == old(self).compounded(time_diff_ms as nat),
            final(self).wf(),
            final(self).supplied.balance >= old(self).supplied.balance,
            final(self).borrowed.balance >= old(self).borrowed.balance,
    {
        let rate = self.get_rate();
        proof {
            self.lemma_rate_at_least_one(time_diff_ms as nat);
        }
        let grown = rate.pow(time_diff_ms).round_mul_u128(self.borrowed.balance);
        let interest = grown - self.borrowed.balance;
        let reserved = ratio(interest, self.config.reserve_ratio);
        self.supplied.balance = self.supplied.balance + (interest - reserved);
        self.reserved = self.reserved + reserved;
        self.borrowed.balance = self.borrowed.balance + interest;
    }

    /// Compounds the interest of the whole milliseconds since the last update.
    pub fn update(&mut self, timestamp: u64)
        requires
            old(self).wf(),
            timestamp >= old(self).last_update_timestamp,
            old(self).can_compound(
                (timestamp - old(self).last_update_timestamp) as nat / NANOS_PER_MS as nat,
            ),
        ensures
            ({
                let ms = (timestamp - old(self).last_update_timestamp) as nat / NANOS_PER_MS as nat;
                if ms > 0 {
                    *final(self) == (Asset {
                        last_update_timestamp: (old(self).last_update_timestamp + ms
                            * NANOS_PER_MS) as u64,
                        ..old(self).compounded(ms)
                    })
                } else {
                    *final(self) == *old(self)
                }
            }),
            final(self).wf(),
            final(self).last_update_timestamp <= timestamp,
            timestamp - final(self).last_update_timestamp < NANOS_PER_MS,
            final(self).supplied.shares == old(self).supplied.shares,
            final(self).supplied.balance >= old(self).supplied.balance,
            final(self).borrowed.shares == old(self).borrowed.shares,
            final(self).borrowed.balance >= old(self).borrowed.balance,
    {
        let time_diff_ms = nano_to_ms(timestamp - self.last_update_timestamp);
        if time_diff_ms > 0 {
            proof {
                vstd::arithmetic::div_mod::lemma_fundamental_div_mod(
                    (timestamp - self.last_update_timestamp) as int,
                    NANOS_PER_MS as int,
                );
                vstd::arithmetic::div_mod::lemma_mod_pos_bound(
                    (timestamp - self.last_update_timestamp) as int,
                    NANOS_PER_MS as int,
                );
            }
            self.last_update_timestamp = self.last_update_timestamp + ms_to_nano(time_diff_ms);
            self.compound(time_diff_ms);
        }
    }

    /// What can still be borrowed: supplied plus reserve, less borrowed.
    pub fn available_amount(&self) -> (r: u128)
        requires
            self.wf(),
        ensures
            r == self.supplied.balance + self.reserved - self.borrowed.balance,
    {
        self.supplied.balance + self.reserved - self.borrowed.balance
    }
}

} // verus!
