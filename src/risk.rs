//! The risk signal of an account: its maximum liquidation discount.
use vstd::prelude::*;

use crate::actions::Contract;
use crate::account::Account;
use crate::asset::Asset;
use crate::big_decimal::{
    balance_price_spec, div_spec, BigDecimal, BIG_DIVISOR, MAX_RATIO,
};
use crate::error::LendingError;
use crate::pool::shares_to_amount_spec;
use crate::price::Price;
use crate::prices::Prices;

verus! {

/// The weighted quote value of collateral shares: the balance they stand for,
/// rounded down, priced, and scaled by the asset's volatility ratio.
pub open spec fn collateral_value(asset: Asset, shares: nat, price: Price) -> nat {
    let balance = shares_to_amount_spec(asset.supplied, shares, false);
    (balance_price_spec(balance, price.multiplier as nat, price.decimals as nat) * (
    asset.config.volatility_ratio as nat) + (MAX_RATIO / 2) as nat) / (MAX_RATIO as nat)
}

/// The weighted quote value of debt shares: the balance they stand for,
/// rounded up, priced, and divided by the asset's volatility ratio.
pub open spec fn borrowed_value(asset: Asset, shares: nat, price: Price) -> nat {
    let balance = shares_to_amount_spec(asset.borrowed, shares, true);
    div_spec(
        balance_price_spec(balance, price.multiplier as nat, price.decimals as nat),
        (asset.config.volatility_ratio * (BIG_DIVISOR / MAX_RATIO as u128)) as nat,
    )
}

/// The weighted collateral value of the first `n` assets.
pub open spec fn collateral_sum(assets: Seq<Asset>, collateral: Seq<u128>, prices: &Prices, n: nat) -> nat
    decreases n,
{
    if n == 0 {
        0
    } else {
        let i = n - 1;
        collateral_sum(assets, collateral, prices, (n - 1) as nat) + if collateral[i] > 0 {
            collateral_value(
                assets[i],
                collateral[i] as nat,
                prices.price_at(i)->Some_0,
            )
        } else {
            0
        }
    }
}

/// The weighted debt value of the first `n` assets.
pub open spec fn borrowed_sum(assets: Seq<Asset>, borrowed: Seq<u128>, prices: &Prices, n: nat) -> nat
    decreases n,
{
    if n == 0 {
        0
    } else {
        let i = n - 1;
        borrowed_sum(assets, borrowed, prices, (n - 1) as nat) + if borrowed[i] > 0 {
            borrowed_value(assets[i], borrowed[i] as nat, prices.price_at(i)->Some_0)
        } else {
            0
        }
    }
}

/// Every asset the account holds as collateral or debt among the first `n` has a price.
pub open spec fn prices_cover(account: &Account, prices: &Prices, n: nat) -> bool {
    covers(account.collateral@, account.borrowed@, prices, n)
}

/// Every asset with collateral or debt among the first `n` has a price.
pub open spec fn covers(collateral: Seq<u128>, borrowed: Seq<u128>, prices: &Prices, n: nat) -> bool {
    forall|i: int|
        0 <= i < n && (collateral[i] > 0 || borrowed[i] > 0) ==> (
        #[trigger] prices.price_at(i)) is Some
}

/// The maximum discount of positions over `assets` at the given prices.
pub open spec fn discount_of(
    assets: Seq<Asset>,
    collateral: Seq<u128>,
    borrowed: Seq<u128>,
    prices: &Prices,
) -> nat {
    discount_spec(
        collateral_sum(assets, collateral, prices, assets.len()),
        borrowed_sum(assets, borrowed, prices, assets.len()),
    )
}

/// Half the relative shortfall of collateral against debt; zero where the
/// collateral covers the debt.
pub open spec fn discount_spec(collateral: nat, borrowed: nat) -> nat {
    if borrowed <= collateral {
        0
    } else {
        div_spec(div_spec((borrowed - collateral) as nat, borrowed), 2 * BIG_DIVISOR as nat)
    }
}

/// The maximum discount of an account at the given prices.
pub open spec fn max_discount_spec(c: &Contract, account: &Account, prices: &Prices) -> nat {
    discount_of(c.assets@, account.collateral@, account.borrowed@, prices)
}

/// The discount stays below one: it is zero where the collateral covers the
/// debt; it stays below one half where the collateral is worth at least
/// `2 * borrowed / 10^27` (some collateral beyond rounding); and it is above
/// zero where the shortfall is at least `borrowed / 10^27` (beyond rounding).
pub proof fn lemma_discount_bounded(collateral: nat, borrowed: nat)
    ensures
        borrowed <= collateral ==> discount_spec(collateral, borrowed) == 0,
        borrowed > collateral && collateral * BIG_DIVISOR >= 2 * borrowed ==> discount_spec(
            collateral,
            borrowed,
        ) < BIG_DIVISOR / 2,
        borrowed > collateral && (borrowed - collateral) * BIG_DIVISOR >= borrowed
            ==> discount_spec(collateral, borrowed) > 0,
        discount_spec(collateral, borrowed) < BIG_DIVISOR,
{
    if borrowed > collateral {
        let big = BIG_DIVISOR as int;
        let b = borrowed as int;
        let c = collateral as int;
        let n = (b - c) * big + b / 2;
        let x = n / b;
        let m = x * big + big;
        assert(big == 1_000_000_000_000_000_000_000_000_000);
        assert(div_spec((borrowed - collateral) as nat, borrowed) == x);
        assert((2 * big) / 2 == big);
        assert(discount_spec(collateral, borrowed) == m / (2 * big));
        assert((b - c) * big == b * big - c * big) by (nonlinear_arith);
        assert(c * big >= 0) by (nonlinear_arith)
            requires
                c >= 0,
                big > 0,
        ;
        assert(n < b * (big + 1)) by (nonlinear_arith)
            requires
                n == b * big - c * big + b / 2,
                c * big >= 0,
                b >= 1,
        ;
        vstd::arithmetic::div_mod::lemma_multiply_divide_lt(n, b, big + 1);
        assert(m < (2 * big) * big) by (nonlinear_arith)
            requires
                m == x * big + big,
                x <= big,
                big == 1_000_000_000_000_000_000_000_000_000,
        ;
        vstd::arithmetic::div_mod::lemma_multiply_divide_lt(m, 2 * big, big);
        if c * big >= 2 * b {
            assert(n < b * (big - 1)) by (nonlinear_arith)
                requires
                    n == b * big - c * big + b / 2,
                    c * big >= 2 * b,
                    b >= 1,
            ;
            vstd::arithmetic::div_mod::lemma_multiply_divide_lt(n, b, big - 1);
            assert(m < (2 * big) * (big / 2)) by (nonlinear_arith)
                requires
                    m == x * big + big,
                    x <= big - 2,
                    big == 1_000_000_000_000_000_000_000_000_000,
            ;
            vstd::arithmetic::div_mod::lemma_multiply_divide_lt(m, 2 * big, big / 2);
        }
        if (b - c) * big >= b {
            assert(n >= b);
            vstd::arithmetic::div_mod::lemma_div_is_ordered(b, n, b);
            vstd::arithmetic::div_mod::lemma_div_by_self(b);
            assert(m >= 2 * big) by (nonlinear_arith)
                requires
                    m == x * big + big,
                    x >= 1,
                    big > 0,
            ;
            vstd::arithmetic::div_mod::lemma_div_is_ordered(2 * big, m, 2 * big);
            vstd::arithmetic::div_mod::lemma_div_by_self(2 * big);
        }
    }
}

impl Contract {
    /// The maximum liquidation discount of an account at the given prices;
    /// refused where an asset the account holds has no price.
    pub fn compute_max_discount(&self, account: &Account, prices: &Prices) -> (r: Result<
        BigDecimal,
        LendingError,
    >)
        requires
            self.wf(),
            self.fits(account),
        ensures
            match r {
                Ok(d) => prices_cover(account, prices, self.assets@.len()) && d@
                    == max_discount_spec(self, account, prices),
                Err(e) => e == LendingError::MissingPrice && !prices_cover(
                    account,
                    prices,
                    self.assets@.len(),
                ),
            },
    {
        let n = self.assets.len();
        let mut collateral_total = BigDecimal::zero();
        let mut borrowed_total = BigDecimal::zero();
        let mut i: usize = 0;
        while i < n
            invariant
                self.wf(),
                self.fits(account),
                n == self.assets@.len(),
                i <= n,
                prices_cover(account, prices, i as nat),
                collateral_total@ == collateral_sum(self.assets@, account.collateral@, prices, i as nat),
                borrowed_total@ == borrowed_sum(self.assets@, account.borrowed@, prices, i as nat),
            decreases n - i,
        {
            let cs = account.collateral[i];
            let bs = account.borrowed[i];
            if cs > 0 || bs > 0 {
                let price = match prices.get(i) {
                    Some(p) => p,
                    None => {
                        return Err(LendingError::MissingPrice);
                    },
                };
                let asset = self.assets[i];
                assert(asset.config.volatility_ratio > 0);
                if cs > 0 {
                    let balance = asset.supplied.shares_to_amount(cs, false);
                    let value = BigDecimal::from_balance_price(balance, &price).mul_ratio(
                        asset.config.volatility_ratio,
                    );
                    collateral_total = collateral_total.add(&value);
                }
                if bs > 0 {
                    let balance = asset.borrowed.shares_to_amount(bs, true);
                    let weight = BigDecimal::from_ratio(asset.config.volatility_ratio);
                    proof {
                        let k = asset.config.volatility_ratio as int;
                        assert(BIG_DIVISOR == 1_000_000_000_000_000_000_000_000_000u128);
                        assert(MAX_RATIO == 10000u32);
                        assert(1_000_000_000_000_000_000_000_000_000u128 / 10000u128
                            == 100_000_000_000_000_000_000_000u128);
                        assert(k * 100_000_000_000_000_000_000_000int > 0) by (nonlinear_arith)
                            requires
                                k > 0,
                        ;
                    }
                    let value = BigDecimal::from_balance_price(balance, &price).div(&weight);
                    borrowed_total = borrowed_total.add(&value);
                }
            }
            i = i + 1;
        }
        if borrowed_total.le(&collateral_total) {
            Ok(BigDecimal::zero())
        } else {
            let shortfall = borrowed_total.sub(&collateral_total);
            Ok(shortfall.div(&borrowed_total).div(&BigDecimal::from_u32(2)))
        }
    }
}

} // verus!
