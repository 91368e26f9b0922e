//! Fixed-point decimals with 27 fractional digits, rounded half up.
use vstd::prelude::*;

use crate::bignum::{
    nat_add, nat_copy, nat_div, nat_div_small, nat_exp10, nat_from_u128, nat_is_zero, nat_le,
    nat_mul, nat_mul_small, nat_sub, nat_to_u128, pw, value,
};
use crate::price::Price;

verus! {

/// The denominator of ratios, parts per ten thousand.
pub const MAX_RATIO: u32 = 10000;

/// The number of fractional decimal digits.
pub const NUM_DECIMALS: u8 = 27;

/// `10^27`, the scale of a decimal.
pub const BIG_DIVISOR: u128 = 1_000_000_000_000_000_000_000_000_000;

/// Half the scale, added before a division to round half up.
pub const HALF_DIVISOR: u128 = 500_000_000_000_000_000_000_000_000;

/// The raw scaled value of a decimal, as it is kept in storage.
#[derive(Clone, Copy, Debug, PartialEq, Eq, Structural)]
pub struct LowU128(pub u128);

/// A non-negative decimal: an unbounded integer scaled by `10^27`.
pub struct BigDecimal {
    limbs: Vec<u32>,
}

impl View for BigDecimal {
    type V = nat;

    /// The scaled integer.
    closed spec fn view(&self) -> nat {
        value(self.limbs@)
    }
}

/// The product of two scaled values, rounded half up.
pub open spec fn mul_spec(a: nat, b: nat) -> nat {
    (a * b + HALF_DIVISOR as nat) / (BIG_DIVISOR as nat)
}

/// The quotient of two scaled values, rounded to nearest, ties up.
pub open spec fn div_spec(a: nat, b: nat) -> nat
    recommends
        b > 0,
{
    (a * (BIG_DIVISOR as nat) + b / 2) / b
}

/// Repeated squaring from the accumulator `acc`: each product is rounded
/// as `mul_spec` rounds it, in the order in which squaring performs them.
pub open spec fn pow_steps(acc: nat, x: nat, e: nat) -> nat
    decreases e,
{
    if e == 0 {
        acc
    } else {
        let acc2 = if e % 2 == 1 {
            mul_spec(acc, x)
        } else {
            acc
        };
        let e2 = e / 2;
        let x2 = if e2 != 0 {
            mul_spec(x, x)
        } else {
            x
        };
        pow_steps(acc2, x2, e2)
    }
}

/// `x` raised to `e` by repeated squaring.
pub open spec fn pow_spec(x: nat, e: nat) -> nat {
    pow_steps(BIG_DIVISOR as nat, x, e)
}

/// The value in quote units of `balance` at `multiplier * 10^-decimals` per unit,
/// scaled by `10^27` and truncated.
pub open spec fn balance_price_spec(balance: nat, multiplier: nat, decimals: nat) -> nat {
    if decimals > NUM_DECIMALS {
        (multiplier * balance) / pw(10, (decimals - NUM_DECIMALS) as nat)
    } else {
        multiplier * balance * pw(10, (NUM_DECIMALS - decimals) as nat)
    }
}

impl BigDecimal {
    /// The integer `a`.
    pub fn from_u128(a: u128) -> (r: BigDecimal)
        ensures
            r@ == a * BIG_DIVISOR,
    {
        let x = nat_from_u128(a);
        let s = nat_from_u128(BIG_DIVISOR);
        BigDecimal { limbs: nat_mul(&x, &s) }
    }

    /// The integer `a`.
    pub fn from_u64(a: u64) -> (r: BigDecimal)
        ensures
            r@ == a * BIG_DIVISOR,
    {
        BigDecimal::from_u128(a as u128)
    }

    /// The integer `a`.
    pub fn from_u32(a: u32) -> (r: BigDecimal)
        ensures
            r@ == a * BIG_DIVISOR,
    {
        BigDecimal::from_u128(a as u128)
    }

    /// The decimal whose scaled value is `low.0`.
    pub fn from_low_u128(low: LowU128) -> (r: BigDecimal)
        ensures
            r@ == low.0,
    {
        BigDecimal { limbs: nat_from_u128(low.0) }
    }

    /// A second decimal of the same value.
    pub fn duplicate(&self) -> (r: BigDecimal)
        ensures
            r@ == self@,
    {
        BigDecimal { limbs: nat_copy(&self.limbs) }
    }

    pub fn add(&self, rhs: &BigDecimal) -> (r: BigDecimal)
        ensures
            r@ == self@ + rhs@,
    {
        BigDecimal { limbs: nat_add(&self.limbs, &rhs.limbs) }
    }

    /// The difference; the subtrahend may not exceed `self`.
    pub fn sub(&self, rhs: &BigDecimal) -> (r: BigDecimal)
        requires
            rhs@ <= self@,
        ensures
            r@ == self@ - rhs@,
    {
        match nat_sub(&self.limbs, &rhs.limbs) {
            Some(v) => BigDecimal { limbs: v },
            None => BigDecimal { limbs: Vec::new() },
        }
    }

    pub fn mul(&self, rhs: &BigDecimal) -> (r: BigDecimal)
        ensures
            r@ == mul_spec(self@, rhs@),
    {
        let p = nat_mul(&self.limbs, &rhs.limbs);
        let h = nat_from_u128(HALF_DIVISOR);
        let s = nat_add(&p, &h);
        let (q, _) = nat_div_small(&s, BIG_DIVISOR);
        BigDecimal { limbs: q }
    }

    pub fn div(&self, rhs: &BigDecimal) -> (r: BigDecimal)
        requires
            rhs@ > 0,
        ensures
            r@ == div_spec(self@, rhs@),
    {
        let scale = nat_from_u128(BIG_DIVISOR);
        let p = nat_mul(&self.limbs, &scale);
        let (h, _) = nat_div_small(&rhs.limbs, 2);
        let s = nat_add(&p, &h);
        BigDecimal { limbs: nat_div(&s, &rhs.limbs) }
    }

    /// `ratio` parts per ten thousand.
    pub fn from_ratio(ratio: u32) -> (r: BigDecimal)
        ensures
            r@ == ratio * (BIG_DIVISOR / MAX_RATIO as u128),
    {
        let x = nat_from_u128(ratio as u128);
        let s = nat_from_u128(BIG_DIVISOR / (MAX_RATIO as u128));
        BigDecimal { limbs: nat_mul(&x, &s) }
    }

    /// `self` times `ratio / 10000`, rounded half up.
    pub fn mul_ratio(&self, ratio: u32) -> (r: BigDecimal)
        ensures
            r@ == (self@ * (ratio as nat) + (MAX_RATIO / 2) as nat) / (MAX_RATIO as nat),
    {
        let p = nat_mul_small(&self.limbs, ratio);
        let h = nat_from_u128((MAX_RATIO / 2) as u128);
        let s = nat_add(&p, &h);
        let (q, _) = nat_div_small(&s, MAX_RATIO as u128);
        BigDecimal { limbs: q }
    }

    /// The quote value of `balance` smallest units at `price`.
    pub fn from_balance_price(balance: u128, price: &Price) -> (r: BigDecimal)
        ensures
            r@ == balance_price_spec(balance as nat, price.multiplier as nat, price.decimals as nat),
    {
        let m = nat_from_u128(price.multiplier);
        let b = nat_from_u128(balance);
        let num = nat_mul(&m, &b);
        if price.decimals > NUM_DECIMALS {
            let scale = nat_exp10((price.decimals - NUM_DECIMALS) as u32);
            proof {
                crate::bignum::lemma_pw_pos(10, (price.decimals - NUM_DECIMALS) as nat);
            }
            BigDecimal { limbs: nat_div(&num, &scale) }
        } else {
            let scale = nat_exp10((NUM_DECIMALS - price.decimals) as u32);
            BigDecimal { limbs: nat_mul(&num, &scale) }
        }
    }

    /// The nearest integer, halves rounded up.
    pub fn round_u128(&self) -> (r: u128)
        requires
            (self@ + HALF_DIVISOR as nat) / (BIG_DIVISOR as nat) <= u128::MAX,
        ensures
            r == (self@ + HALF_DIVISOR as nat) / (BIG_DIVISOR as nat),
    {
        let h = nat_from_u128(HALF_DIVISOR);
        let s = nat_add(&self.limbs, &h);
        let (q, _) = nat_div_small(&s, BIG_DIVISOR);
        nat_to_u128(&q)
    }

    /// `self * rhs` as the nearest integer, halves rounded up.
    pub fn round_mul_u128(&self, rhs: u128) -> (r: u128)
        requires
            (self@ * (rhs as nat) + HALF_DIVISOR as nat) / (BIG_DIVISOR as nat) <= u128::MAX,
        ensures
            r == (self@ * (rhs as nat) + HALF_DIVISOR as nat) / (BIG_DIVISOR as nat),
    {
        let x = nat_from_u128(rhs);
        let p = nat_mul(&self.limbs, &x);
        let h = nat_from_u128(HALF_DIVISOR);
        let s = nat_add(&p, &h);
        let (q, _) = nat_div_small(&s, BIG_DIVISOR);
        nat_to_u128(&q)
    }

    /// Whether `self * rhs`, rounded to the nearest integer, fits in a `u128`.
    pub fn round_mul_fits(&self, rhs: u128) -> (r: bool)
        ensures
            r == ((self@ * (rhs as nat) + HALF_DIVISOR as nat) / (BIG_DIVISOR as nat) <= u128::MAX),
    {
        let x = nat_from_u128(rhs);
        let p = nat_mul(&self.limbs, &x);
        let h = nat_from_u128(HALF_DIVISOR);
        let s = nat_add(&p, &h);
        let (q, _) = nat_div_small(&s, BIG_DIVISOR);
        nat_le(&q, &nat_from_u128(u128::MAX))
    }

    /// `self / rhs`, truncated.
    pub fn div_u128(&self, rhs: u128) -> (r: BigDecimal)
        requires
            rhs > 0,
        ensures
            r@ == self@ / (rhs as nat),
    {
        let d = nat_from_u128(rhs);
        BigDecimal { limbs: nat_div(&self.limbs, &d) }
    }

    pub fn zero() -> (r: BigDecimal)
        ensures
            r@ == 0,
    {
        let r = BigDecimal { limbs: Vec::new() };
        assert(r@ == 0);
        r
    }

    pub fn one() -> (r: BigDecimal)
        ensures
            r@ == BIG_DIVISOR,
    {
        BigDecimal { limbs: nat_from_u128(BIG_DIVISOR) }
    }

    /// `self` raised to `exponent` by repeated squaring, each product rounded.
    pub fn pow(&self, exponent: u64) -> (r: BigDecimal)
        ensures
            r@ == pow_spec(self@, exponent as nat),
    {
        let mut res = BigDecimal::one();
        let mut x = self.duplicate();
        let mut e: u64 = exponent;
        while e != 0
            invariant
                pow_steps(res@, x@, e as nat) == pow_spec(self@, exponent as nat),
            decreases e,
        {
            if e % 2 == 1 {
                res = res.mul(&x);
            }
            e = e / 2;
            if e != 0 {
                x = x.mul(&x);
            }
        }
        res
    }

    /// Whether `self` is zero.
    pub fn is_zero(&self) -> (r: bool)
        ensures
            r == (self@ == 0),
    {
        nat_is_zero(&self.limbs)
    }

    /// Whether `self < rhs`.
    pub fn lt(&self, rhs: &BigDecimal) -> (r: bool)
        ensures
            r == (self@ < rhs@),
    {
        !nat_le(&rhs.limbs, &self.limbs)
    }

    /// Whether `self <= rhs`.
    pub fn le(&self, rhs: &BigDecimal) -> (r: bool)
        ensures
            r == (self@ <= rhs@),
    {
        nat_le(&self.limbs, &rhs.limbs)
    }

    /// Whether the two decimals are equal.
    pub fn eq(&self, rhs: &BigDecimal) -> (r: bool)
        ensures
            r == (self@ == rhs@),
    {
        nat_le(&self.limbs, &rhs.limbs) && nat_le(&rhs.limbs, &self.limbs)
    }
}

impl LowU128 {
    /// The low 128 bits of the scaled value.
    pub fn from_big_decimal(bd: &BigDecimal) -> (r: LowU128)
        ensures
            r.0 == bd@ % (u128::MAX as nat + 1),
    {
        let (q1, r1) = nat_div_small(&bd.limbs, 0x1_0000_0000_0000_0000);
        let (q2, r2) = nat_div_small(&q1, 0x1_0000_0000_0000_0000);
        proof {
            let v = bd@ as int;
            let b = 0x1_0000_0000_0000_0000int;
            vstd::arithmetic::div_mod::lemma_fundamental_div_mod(v, b);
            vstd::arithmetic::div_mod::lemma_fundamental_div_mod(value(q1@) as int, b);
            assert(v == value(q2@) * (b * b) + (r2 * b + r1)) by (nonlinear_arith)
                requires
                    v == b * value(q1@) + r1,
                    value(q1@) == b * value(q2@) + r2,
            ;
            assert(r2 * b + r1 < b * b) by (nonlinear_arith)
                requires
                    r2 < b,
                    r1 < b,
            ;
            vstd::arithmetic::div_mod::lemma_fundamental_div_mod_converse(
                v,
                b * b,
                value(q2@) as int,
                r2 * b + r1,
            );
        }
        LowU128(r2 * 0x1_0000_0000_0000_0000 + r1)
    }
}

} // verus!
