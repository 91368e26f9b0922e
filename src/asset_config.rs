//! Per-asset configuration and the utilization rate curve.
use vstd::prelude::*;

use crate::big_decimal::{div_spec, mul_spec, BigDecimal, LowU128, BIG_DIVISOR, MAX_RATIO};

verus! {

/// Utilization positions are in parts per ten thousand.
pub const MAX_POS: u32 = 10000;

/// The risk and rate parameters of one asset.
#[derive(Clone, Copy, Debug, PartialEq, Eq, Structural)]
pub struct AssetConfig {
    /// The part of borrowers' interest that goes to the reserve, per ten thousand.
    pub reserve_ratio: u32,
    /// The utilization at the kink of the rate curve, per ten thousand.
    pub target_utilization: u32,
    /// The per-millisecond compounding factor at the target utilization.
    pub target_utilization_rate: LowU128,
    /// The per-millisecond compounding factor at full utilization.
    pub max_utilization_rate: LowU128,
    /// The weight of the asset's value as collateral or debt, per ten thousand.
    pub volatility_ratio: u32,
}

impl AssetConfig {
    /// The configuration's invariant.
    pub open spec fn valid(&self) -> bool {
        &&& self.reserve_ratio <= MAX_RATIO
        &&& self.target_utilization < MAX_POS
        &&& self.target_utilization_rate.0 <= self.max_utilization_rate.0
    }

    /// Rates are compounding factors, never below one.
    pub open spec fn rates_at_least_one(&self) -> bool {
        self.target_utilization_rate.0 >= BIG_DIVISOR
    }

    /// The per-millisecond rate for `borrowed` out of `total` supplied: one when
    /// nothing is supplied; else linear from one to the target rate below the
    /// target utilization, and from the target rate to the maximum rate above it.
    pub open spec fn rate_spec(&self, borrowed: nat, total: nat) -> nat {
        if total == 0 {
            BIG_DIVISOR as nat
        } else {
            let pos = (borrowed * BIG_DIVISOR) / (total as int);
            let target = self.target_utilization * (BIG_DIVISOR / MAX_RATIO as u128) as int;
            let tur = self.target_utilization_rate.0 as nat;
            let mur = self.max_utilization_rate.0 as nat;
            if pos < target {
                BIG_DIVISOR as nat + div_spec(
                    mul_spec(pos as nat, (tur - BIG_DIVISOR) as nat),
                    target as nat,
                )
            } else {
                tur + div_spec(
                    mul_spec((pos - target) as nat, (mur - tur) as nat),
                    ((MAX_POS - self.target_utilization) * (BIG_DIVISOR / MAX_RATIO as u128)) as nat,
                )
            }
        }
    }

    /// Whether the configuration keeps its invariant.
    pub fn assert_valid(&self) -> (r: bool)
        ensures
            r == self.valid(),
    {
        self.reserve_ratio <= MAX_RATIO && self.target_utilization < MAX_POS
            && self.target_utilization_rate.0 <= self.max_utilization_rate.0
    }

    /// The per-millisecond compounding factor for the given utilization.
    pub fn get_rate(&self, borrowed_balance: u128, total_supplied_balance: u128) -> (r: BigDecimal)
        requires
            self.valid(),
            self.rates_at_least_one(),
        ensures
            r@ == self.rate_spec(borrowed_balance as nat, total_supplied_balance as nat),
    {
        if total_supplied_balance == 0 {
            BigDecimal::one()
        } else {
            let pos = BigDecimal::from_u128(borrowed_balance).div_u128(total_supplied_balance);
            let target_utilization = BigDecimal::from_ratio(self.target_utilization);
            let tur = BigDecimal::from_low_u128(self.target_utilization_rate);
            if pos.lt(&target_utilization) {
                let one = BigDecimal::one();
                let slope = tur.sub(&one);
                one.add(&pos.mul(&slope).div(&target_utilization))
            } else {
                let mur = BigDecimal::from_low_u128(self.max_utilization_rate);
                let span = BigDecimal::from_ratio(MAX_POS - self.target_utilization);
                proof {
                    let k = (MAX_POS - self.target_utilization) as int;
                    assert(k > 0);
                    assert(BIG_DIVISOR == 1_000_000_000_000_000_000_000_000_000u128);
                    assert(MAX_RATIO == 10000u32);
                    assert(1_000_000_000_000_000_000_000_000_000u128 / 10000u128
                        == 100_000_000_000_000_000_000_000u128);
                    assert(k * 100_000_000_000_000_000_000_000int > 0) by (nonlinear_arith)
                        requires
                            k > 0,
                    ;
                }
                let excess = pos.sub(&target_utilization);
                tur.add(&excess.mul(&mur.sub(&tur)).div(&span))
            }
        }
    }
}

} // verus!
