//! Time units and integer ratios.
use vstd::prelude::*;

use crate::big_decimal::MAX_RATIO;
use crate::bignum::{nat_add, nat_div, nat_from_u128, nat_le, nat_mul, nat_to_u128};

verus! {

/// Nanoseconds in a millisecond.
pub const NANOS_PER_MS: u64 = 1_000_000;

/// Whole milliseconds in `nano` nanoseconds.
pub fn nano_to_ms(nano: u64) -> (r: u64)
    ensures
        r == nano / NANOS_PER_MS,
{
    nano / NANOS_PER_MS
}

/// Nanoseconds in `ms` milliseconds.
pub fn ms_to_nano(ms: u64) -> (r: u64)
    requires
        ms * NANOS_PER_MS <= u64::MAX,
    ensures
        r == ms * NANOS_PER_MS,
{
    ms * NANOS_PER_MS
}

/// `(a * b + c) / d` with a wide intermediate.
pub fn mul_add_div(a: u128, b: u128, c: u128, d: u128) -> (r: u128)
    requires
        d > 0,
        (a * b + c) / (d as int) <= u128::MAX,
    ensures
        r == (a * b + c) / (d as int),
{
    let p = nat_mul(&nat_from_u128(a), &nat_from_u128(b));
    let s = nat_add(&p, &nat_from_u128(c));
    let q = nat_div(&s, &nat_from_u128(d));
    nat_to_u128(&q)
}

/// `(a * b + c) / d` with a wide intermediate, or `None` where it does not fit.
pub fn checked_mul_add_div(a: u128, b: u128, c: u128, d: u128) -> (r: Option<u128>)
    requires
        d > 0,
    ensures
        r == (if (a * b + c) / (d as int) <= u128::MAX {
            Some(((a * b + c) / (d as int)) as u128)
        } else {
            None::<u128>
        }),
{
    let p = nat_mul(&nat_from_u128(a), &nat_from_u128(b));
    let s = nat_add(&p, &nat_from_u128(c));
    let q = nat_div(&s, &nat_from_u128(d));
    if nat_le(&q, &nat_from_u128(u128::MAX)) {
        Some(nat_to_u128(&q))
    } else {
        None
    }
}

/// `a * num / denom`, truncated.
pub fn u128_ratio(a: u128, num: u128, denom: u128) -> (r: u128)
    requires
        denom > 0,
        (a * num) / (denom as int) <= u128::MAX,
    ensures
        r == (a * num) / (denom as int),
{
    mul_add_div(a, num, 0, denom)
}

/// `balance * r / 10000`, truncated; at most `balance`.
pub fn ratio(balance: u128, r: u32) -> (res: u128)
    requires
        r <= MAX_RATIO,
    ensures
        res == (balance * r) / (MAX_RATIO as int),
        res <= balance,
{
    assert((balance * r) / (MAX_RATIO as int) <= balance) by (nonlinear_arith)
        requires
            r <= 10000,
    {
        vstd::arithmetic::div_mod::lemma_div_is_ordered(
            (balance * r) as int,
            (balance * 10000) as int,
            10000,
        );
        vstd::arithmetic::div_mod::lemma_div_multiples_vanish(balance as int, 10000);
    }
    u128_ratio(balance, r as u128, MAX_RATIO as u128)
}

} // verus!
