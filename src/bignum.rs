//! Unbounded natural numbers held as little-endian `u32` limbs.
use vstd::prelude::*;

verus! {

/// The limb base, `2^32`.
pub const LIMB: u64 = 0x1_0000_0000;

/// `b` raised to `e`.
pub open spec fn pw(b: nat, e: nat) -> nat
    decreases e,
{
    if e == 0 {
        1
    } else {
        b * pw(b, (e - 1) as nat)
    }
}

/// The `i`-th digit of `s`, zero past its end.
pub open spec fn digit(s: Seq<u32>, i: int) -> nat {
    if 0 <= i < s.len() {
        s[i] as nat
    } else {
        0
    }
}

/// The value of the lowest `n` digits of `s` in base `b`.
pub open spec fn pval(s: Seq<u32>, n: nat, b: nat) -> nat
    decreases n,
{
    if n == 0 {
        0
    } else {
        pval(s, (n - 1) as nat, b) + digit(s, n - 1) * pw(b, (n - 1) as nat)
    }
}

/// The number that the limbs `s` stand for.
pub open spec fn value(s: Seq<u32>) -> nat {
    pval(s, s.len(), LIMB as nat)
}

/// Powers of a positive base are positive.
pub proof fn lemma_pw_pos(b: nat, e: nat)
    requires
        b > 0,
    ensures
        pw(b, e) > 0,
    decreases e,
{
    if e > 0 {
        lemma_pw_pos(b, (e - 1) as nat);
        assert(b * pw(b, (e - 1) as nat) > 0) by (nonlinear_arith)
            requires
                b > 0,
                pw(b, (e - 1) as nat) > 0,
        ;
    }
}

/// The value of the low digits depends on those digits only.
pub proof fn lemma_pval_ext(s: Seq<u32>, t: Seq<u32>, n: nat, b: nat)
    requires
        forall|i: int| 0 <= i < n ==> digit(s, i) == digit(t, i),
    ensures
        pval(s, n, b) == pval(t, n, b),
    decreases n,
{
    if n > 0 {
        lemma_pval_ext(s, t, (n - 1) as nat, b);
    }
}

/// Digits past the end are zero and add nothing.
pub proof fn lemma_pval_beyond(s: Seq<u32>, n: nat, b: nat)
    requires
        n >= s.len(),
    ensures
        pval(s, n, b) == pval(s, s.len(), b),
    decreases n,
{
    if n > s.len() {
        lemma_pval_beyond(s, (n - 1) as nat, b);
        assert(digit(s, n - 1) == 0);
        assert(pval(s, n, b) == pval(s, (n - 1) as nat, b) + 0 * pw(b, (n - 1) as nat));
    }
}

/// Digits below the base keep the value below `b^n`.
pub proof fn lemma_pval_bound(s: Seq<u32>, n: nat, b: nat)
    requires
        b > 0,
        forall|i: int| 0 <= i < n ==> digit(s, i) < b,
    ensures
        pval(s, n, b) < pw(b, n),
    decreases n,
{
    if n > 0 {
        let m = (n - 1) as nat;
        lemma_pval_bound(s, m, b);
        let d = digit(s, m as int);
        let p = pw(b, m);
        assert(pval(s, m, b) + d * p < b * p) by (nonlinear_arith)
            requires
                pval(s, m, b) < p,
                d < b,
                d + 1 <= b,
        ;
    }
}

/// Prepending a digit multiplies the rest by the base.
pub proof fn lemma_pval_cons(x: u32, s: Seq<u32>, n: nat, b: nat)
    ensures
        pval(seq![x] + s, n + 1, b) == x + b * pval(s, n, b),
    decreases n,
{
    let c = seq![x] + s;
    if n == 0 {
        assert(digit(c, 0) == x);
        assert(pw(b, 0) == 1);
        assert(pval(c, 1, b) == pval(c, 0, b) + digit(c, 0) * pw(b, 0));
        assert(pval(s, 0, b) == 0);
        assert(b * 0 == 0);
    } else {
        let m = (n - 1) as nat;
        lemma_pval_cons(x, s, m, b);
        assert(digit(c, n as int) == digit(s, m as int));
        let p = pw(b, m);
        let v = pval(s, m, b);
        let d = digit(s, m as int);
        assert(x + b * v + d * (b * p) == x + b * (v + d * p)) by (nonlinear_arith);
        assert(pw(b, n) == b * p);
        assert(pval(c, n + 1, b) == pval(c, n, b) + digit(c, n as int) * pw(b, n));
        assert(pval(s, n, b) == v + d * p);
    }
}

/// The value of a sequence extended by one digit.
pub proof fn lemma_value_push(s: Seq<u32>, x: u32)
    ensures
        value(s.push(x)) == value(s) + x * pw(LIMB as nat, s.len()),
{
    lemma_pval_ext(s.push(x), s, s.len(), LIMB as nat);
}

/// A number's limbs are below the base, so its value is below `2^(32 n)`.
pub proof fn lemma_value_bound(s: Seq<u32>)
    ensures
        value(s) < pw(LIMB as nat, s.len()),
{
    lemma_pval_bound(s, s.len(), LIMB as nat);
}

/// Adds two numbers.
pub fn nat_add(a: &Vec<u32>, b: &Vec<u32>) -> (r: Vec<u32>)
    ensures
        value(r@) == value(a@) + value(b@),
{
    let n: usize = if a.len() > b.len() {
        a.len()
    } else {
        b.len()
    };
    let mut r: Vec<u32> = Vec::new();
    let mut carry: u64 = 0;
    let mut i: usize = 0;
    while i < n
        invariant
            n >= a.len(),
            n >= b.len(),
            i <= n,
            r.len() == i,
            carry <= 1,
            value(r@) + carry * pw(LIMB as nat, i as nat) == pval(a@, i as nat, LIMB as nat) + pval(
                b@,
                i as nat,
                LIMB as nat,
            ),
        decreases n - i,
    {
        let x: u64 = if i < a.len() {
            a[i] as u64
        } else {
            0
        };
        let y: u64 = if i < b.len() {
            b[i] as u64
        } else {
            0
        };
        let t: u64 = x + y + carry;
        let lo: u32 = (t % LIMB) as u32;
        let c2: u64 = t / LIMB;
        proof {
            lemma_value_push(r@, lo);
            let p = pw(LIMB as nat, i as nat);
            assert(digit(a@, i as int) == x);
            assert(digit(b@, i as int) == y);
            assert(t == lo + c2 * LIMB);
            assert((lo + c2 * LIMB) * p == lo * p + c2 * (LIMB * p)) by (nonlinear_arith);
            assert((x + y + carry) * p == x * p + y * p + carry * p) by (nonlinear_arith);
        }
        r.push(lo);
        carry = c2;
        i = i + 1;
    }
    proof {
        lemma_value_push(r@, carry as u32);
        lemma_pval_beyond(a@, n as nat, LIMB as nat);
        lemma_pval_beyond(b@, n as nat, LIMB as nat);
    }
    r.push(carry as u32);
    nat_trim(&mut r);
    r
}

/// Drops the high zero limbs.
pub fn nat_trim(v: &mut Vec<u32>)
    ensures
        value(final(v)@) == value(old(v)@),
        final(v)@.len() <= old(v)@.len(),
{
    while v.len() > 0 && v[v.len() - 1] == 0
        invariant
            value(v@) == value(old(v)@),
            v@.len() <= old(v)@.len(),
        decreases v.len(),
    {
        let ghost s = v@;
        proof {
            assert(s =~= s.drop_last().push(0));
            lemma_value_push(s.drop_last(), 0);
        }
        v.pop();
    }
}

/// A copy of the limbs.
pub fn nat_copy(a: &Vec<u32>) -> (r: Vec<u32>)
    ensures
        r@ == a@,
{
    let mut r: Vec<u32> = Vec::new();
    let mut i: usize = 0;
    while i < a.len()
        invariant
            i <= a.len(),
            r@ == a@.subrange(0, i as int),
        decreases a.len() - i,
    {
        r.push(a[i]);
        i = i + 1;
        assert(r@ =~= a@.subrange(0, i as int));
    }
    assert(r@ =~= a@);
    r
}

/// The limbs of an integer.
pub fn nat_from_u128(x: u128) -> (r: Vec<u32>)
    ensures
        value(r@) == x,
{
    let mut r: Vec<u32> = Vec::new();
    let mut y: u128 = x;
    assert(pw(LIMB as nat, 0) == 1);
    assert(value(r@) == 0);
    assert(y * 1 == y) by (nonlinear_arith);
    while y > 0
        invariant
            x == value(r@) + y * pw(LIMB as nat, r.len() as nat),
        decreases y,
    {
        let lo: u32 = (y % (LIMB as u128)) as u32;
        let y2: u128 = y / (LIMB as u128);
        proof {
            lemma_value_push(r@, lo);
            let p = pw(LIMB as nat, r.len() as nat);
            vstd::arithmetic::div_mod::lemma_fundamental_div_mod(y as int, LIMB as int);
            assert(y == lo + LIMB * y2);
            assert((lo + LIMB * y2) * p == lo * p + y2 * (LIMB * p)) by (nonlinear_arith);
        }
        r.push(lo);
        y = y2;
    }
    r
}

/// Subtracts `b` from `a`; `None` where `b` is the larger.
pub fn nat_sub(a: &Vec<u32>, b: &Vec<u32>) -> (r: Option<Vec<u32>>)
    ensures
        match r {
            Some(v) => value(a@) >= value(b@) && value(v@) == value(a@) - value(b@),
            None => value(a@) < value(b@),
        },
{
    let n: usize = if a.len() > b.len() {
        a.len()
    } else {
        b.len()
    };
    let mut r: Vec<u32> = Vec::new();
    let mut borrow: u64 = 0;
    let mut i: usize = 0;
    while i < n
        invariant
            n >= a.len(),
            n >= b.len(),
            i <= n,
            r.len() == i,
            borrow <= 1,
            value(r@) + pval(b@, i as nat, LIMB as nat) == pval(a@, i as nat, LIMB as nat) + borrow
                * pw(LIMB as nat, i as nat),
        decreases n - i,
    {
        let x: u64 = if i < a.len() {
            a[i] as u64
        } else {
            0
        };
        let y: u64 = if i < b.len() {
            b[i] as u64
        } else {
            0
        };
        let lo: u32;
        let b2: u64;
        if x >= y + borrow {
            lo = (x - y - borrow) as u32;
            b2 = 0;
        } else {
            lo = (x + LIMB - y - borrow) as u32;
            b2 = 1;
        }
        proof {
            lemma_value_push(r@, lo);
            let p = pw(LIMB as nat, i as nat);
            assert(digit(a@, i as int) == x);
            assert(digit(b@, i as int) == y);
            assert(lo + y + borrow == x + b2 * LIMB);
            assert((lo + y + borrow) * p == lo * p + y * p + borrow * p) by (nonlinear_arith);
            assert((x + b2 * LIMB) * p == x * p + b2 * (LIMB * p)) by (nonlinear_arith);
        }
        r.push(lo);
        borrow = b2;
        i = i + 1;
    }
    proof {
        lemma_pval_beyond(a@, n as nat, LIMB as nat);
        lemma_pval_beyond(b@, n as nat, LIMB as nat);
        lemma_value_bound(r@);
    }
    if borrow == 0 {
        nat_trim(&mut r);
        Some(r)
    } else {
        None
    }
}

/// Whether `a <= b`.
pub fn nat_le(a: &Vec<u32>, b: &Vec<u32>) -> (r: bool)
    ensures
        r == (value(a@) <= value(b@)),
{
    match nat_sub(b, a) {
        Some(_) => true,
        None => false,
    }
}

/// Whether the number is zero.
pub fn nat_is_zero(a: &Vec<u32>) -> (r: bool)
    ensures
        r == (value(a@) == 0),
{
    let z: Vec<u32> = Vec::new();
    assert(value(z@) == 0);
    nat_le(a, &z)
}

/// Multiplies a number by one limb.
pub fn nat_mul_small(a: &Vec<u32>, m: u32) -> (r: Vec<u32>)
    ensures
        value(r@) == value(a@) * m,
{
    let mut r: Vec<u32> = Vec::new();
    let mut carry: u64 = 0;
    let mut i: usize = 0;
    while i < a.len()
        invariant
            i <= a.len(),
            r.len() == i,
            carry < LIMB,
            value(r@) + carry * pw(LIMB as nat, i as nat) == pval(a@, i as nat, LIMB as nat) * m,
        decreases a.len() - i,
    {
        let x: u64 = a[i] as u64;
        assert(x * m <= 0xffff_ffff * 0xffff_ffff) by (nonlinear_arith)
            requires
                x <= 0xffff_ffff,
                m <= 0xffff_ffff,
        ;
        let t: u64 = x * (m as u64) + carry;
        let lo: u32 = (t % LIMB) as u32;
        let c2: u64 = t / LIMB;
        proof {
            lemma_value_push(r@, lo);
            let p = pw(LIMB as nat, i as nat);
            let pa = pval(a@, i as nat, LIMB as nat);
            assert(digit(a@, i as int) == x);
            assert(t == lo + c2 * LIMB);
            assert((lo + c2 * LIMB) * p == lo * p + c2 * (LIMB * p)) by (nonlinear_arith);
            assert((x * m + carry) * p == x * m * p + carry * p) by (nonlinear_arith);
            assert((pa + x * p) * m == pa * m + x * m * p) by (nonlinear_arith);
        }
        r.push(lo);
        carry = c2;
        i = i + 1;
    }
    proof {
        lemma_value_push(r@, carry as u32);
    }
    r.push(carry as u32);
    nat_trim(&mut r);
    r
}

/// Multiplies two numbers.
pub fn nat_mul(a: &Vec<u32>, b: &Vec<u32>) -> (r: Vec<u32>)
    ensures
        value(r@) == value(a@) * value(b@),
{
    let mut r: Vec<u32> = Vec::new();
    let mut j: usize = b.len();
    proof {
        assert(value(r@) == 0);
    }
    while j > 0
        invariant
            j <= b.len(),
            value(r@) * pw(LIMB as nat, j as nat) + value(a@) * pval(b@, j as nat, LIMB as nat)
                == value(a@) * value(b@),
        decreases j,
    {
        let ghost old_r = r@;
        let ghost len = r@.len();
        r.insert(0, 0);
        proof {
            assert(r@ =~= seq![0u32] + old_r);
            lemma_pval_cons(0, old_r, len, LIMB as nat);
        }
        let part = nat_mul_small(a, b[j - 1]);
        r = nat_add(&r, &part);
        proof {
            let va = value(a@);
            let vr = value(old_r);
            let d = digit(b@, j - 1);
            let p = pw(LIMB as nat, (j - 1) as nat);
            assert(d == b@[j - 1]);
            assert(pw(LIMB as nat, j as nat) == LIMB * p);
            assert(pval(b@, j as nat, LIMB as nat) == pval(b@, (j - 1) as nat, LIMB as nat) + d * p);
            let q = pval(b@, (j - 1) as nat, LIMB as nat);
            assert((LIMB * vr + va * d) * p + va * q == vr * (LIMB * p) + va * (q + d * p))
                by (nonlinear_arith);
        }
        j = j - 1;
    }
    assert(pw(LIMB as nat, 0) == 1);
    assert(pval(b@, 0, LIMB as nat) == 0);
    assert(value(r@) * 1 + value(a@) * 0 == value(r@)) by (nonlinear_arith);
    r
}

/// Divides by a divisor that fits in 96 bits, giving quotient and remainder.
pub fn nat_div_small(a: &Vec<u32>, d: u128) -> (r: (Vec<u32>, u128))
    requires
        0 < d <= 0x1_0000_0000_0000_0000_0000_0000,
    ensures
        value(r.0@) == value(a@) / (d as nat),
        r.1 == value(a@) % (d as nat),
{
    let mut q: Vec<u32> = Vec::new();
    let mut rem: u128 = 0;
    let mut i: usize = a.len();
    assert(value(q@) == 0);
    assert((0 * d + 0) * pw(LIMB as nat, i as nat) == 0) by (nonlinear_arith);
    while i > 0
        invariant
            i <= a.len(),
            0 < d <= 0x1_0000_0000_0000_0000_0000_0000,
            rem < d,
            value(a@) == (value(q@) * d + rem) * pw(LIMB as nat, i as nat) + pval(
                a@,
                i as nat,
                LIMB as nat,
            ),
        decreases i,
    {
        let x: u128 = a[i - 1] as u128;
        assert(rem * LIMB + x < d * LIMB) by (nonlinear_arith)
            requires
                rem + 1 <= d,
                x < LIMB,
        ;
        assert(d * LIMB <= 0x1_0000_0000_0000_0000_0000_0000 * 0x1_0000_0000) by (nonlinear_arith)
            requires
                d <= 0x1_0000_0000_0000_0000_0000_0000,
        ;
        let t: u128 = rem * (LIMB as u128) + x;
        let qd: u128 = t / d;
        assert(qd < LIMB) by (nonlinear_arith)
            requires
                qd == t / d,
                t < d * LIMB,
                d > 0,
        ;
        let r2: u128 = t % d;
        let ghost old_q = q@;
        let ghost len = q@.len();
        q.insert(0, qd as u32);
        proof {
            assert(q@ =~= seq![qd as u32] + old_q);
            lemma_pval_cons(qd as u32, old_q, len, LIMB as nat);
            let vq = value(old_q);
            let p = pw(LIMB as nat, (i - 1) as nat);
            let pa = pval(a@, (i - 1) as nat, LIMB as nat);
            assert(digit(a@, i - 1) == x);
            assert(pw(LIMB as nat, i as nat) == LIMB * p);
            vstd::arithmetic::div_mod::lemma_fundamental_div_mod(t as int, d as int);
            assert(t == qd * d + r2);
            assert(((qd + LIMB * vq) * d + r2) * p == (vq * d + rem) * (LIMB * p) + x * p)
                by (nonlinear_arith)
                requires
                    t == qd * d + r2,
                    t == rem * LIMB + x,
            ;
        }
        rem = r2;
        i = i - 1;
    }
    proof {
        assert(pw(LIMB as nat, 0) == 1);
        assert(pval(a@, 0, LIMB as nat) == 0);
        assert((value(q@) * d + rem) * 1 == value(q@) * d + rem) by (nonlinear_arith);
        vstd::arithmetic::div_mod::lemma_fundamental_div_mod_converse(
            value(a@) as int,
            d as int,
            value(q@) as int,
            rem as int,
        );
    }
    nat_trim(&mut q);
    (q, rem)
}

/// The number as a `u128`, where it fits.
pub fn nat_to_u128(a: &Vec<u32>) -> (r: u128)
    requires
        value(a@) <= u128::MAX,
    ensures
        r == value(a@),
{
    let mut x: u128 = 0;
    let mut i: usize = a.len();
    while i > 0
        invariant
            i <= a.len(),
            value(a@) <= u128::MAX,
            value(a@) == x * pw(LIMB as nat, i as nat) + pval(a@, i as nat, LIMB as nat),
        decreases i,
    {
        let y: u128 = a[i - 1] as u128;
        proof {
            let p = pw(LIMB as nat, (i - 1) as nat);
            lemma_pw_pos(LIMB as nat, (i - 1) as nat);
            assert(digit(a@, i - 1) == y);
            assert(pw(LIMB as nat, i as nat) == LIMB * p);
            let pa = pval(a@, (i - 1) as nat, LIMB as nat);
            assert(x * (LIMB * p) + pa + y * p == (x * LIMB + y) * p + pa) by (nonlinear_arith);
            assert((x * LIMB + y) * p >= x * LIMB + y) by (nonlinear_arith)
                requires
                    p >= 1,
            ;
        }
        x = x * (LIMB as u128) + y;
        i = i - 1;
    }
    assert(pw(LIMB as nat, 0) == 1);
    assert(pval(a@, 0, LIMB as nat) == 0);
    assert(x * 1 == x) by (nonlinear_arith);
    x
}

/// Ten raised to `n`.
pub fn nat_exp10(n: u32) -> (r: Vec<u32>)
    ensures
        value(r@) == pw(10, n as nat),
{
    let mut r = nat_from_u128(1);
    let mut i: u32 = 0;
    while i < n
        invariant
            i <= n,
            value(r@) == pw(10, i as nat),
        decreases n - i,
    {
        r = nat_mul_small(&r, 10);
        i = i + 1;
    }
    r
}

/// Divides by any non-zero divisor, one bit of the dividend at a time.
pub fn nat_div(a: &Vec<u32>, d: &Vec<u32>) -> (r: Vec<u32>)
    requires
        value(d@) > 0,
    ensures
        value(r@) == value(a@) / value(d@),
{
    // The binary digits of the dividend, lowest first.
    let mut bits: Vec<u32> = Vec::new();
    let mut cur = nat_copy(a);
    proof {
        assert(pw(2, 0) == 1);
        assert(pval(bits@, 0, 2) == 0);
        assert(value(cur@) * 1 == value(cur@)) by (nonlinear_arith);
    }
    while !nat_is_zero(&cur)
        invariant
            value(a@) == value(cur@) * pw(2, bits.len() as nat) + pval(bits@, bits.len() as nat, 2),
            forall|k: int| 0 <= k < bits.len() ==> bits@[k] < 2,
        decreases value(cur@),
    {
        let (half, bit) = nat_div_small(&cur, 2);
        proof {
            let k = bits.len() as nat;
            let p = pw(2, k);
            lemma_pval_ext(bits@.push(bit as u32), bits@, k, 2);
            assert(digit(bits@.push(bit as u32), k as int) == bit);
            assert(value(cur@) == 2 * value(half@) + bit);
            assert((2 * value(half@) + bit) * p == value(half@) * (2 * p) + bit * p)
                by (nonlinear_arith);
        }
        bits.push(bit as u32);
        cur = half;
    }
    let mut q: Vec<u32> = Vec::new();
    let mut rem: Vec<u32> = Vec::new();
    let one = nat_from_u128(1);
    let mut i: usize = bits.len();
    while i > 0
        invariant
            i <= bits.len(),
            value(d@) > 0,
            value(one@) == 1,
            value(rem@) < value(d@),
            forall|k: int| 0 <= k < bits.len() ==> bits@[k] < 2,
            value(a@) == (value(q@) * value(d@) + value(rem@)) * pw(2, i as nat) + pval(
                bits@,
                i as nat,
                2,
            ),
        decreases i,
    {
        let bit = nat_from_u128(bits[i - 1] as u128);
        let twice = nat_add(&rem, &rem);
        let r2 = nat_add(&twice, &bit);
        let q2 = nat_add(&q, &q);
        let ghost vq = value(q@);
        let ghost vr = value(rem@);
        let ghost b = bits@[i - 1] as nat;
        match nat_sub(&r2, d) {
            Some(v) => {
                rem = v;
                q = nat_add(&q2, &one);
            },
            None => {
                rem = r2;
                q = q2;
            },
        }
        proof {
            let vd = value(d@);
            let p = pw(2, (i - 1) as nat);
            assert(pw(2, i as nat) == 2 * p);
            assert(digit(bits@, i - 1) == b);
            assert(value(q@) * vd + value(rem@) == 2 * vq * vd + 2 * vr + b) by (nonlinear_arith)
                requires
                    value(q@) == 2 * vq + 1 && value(rem@) + vd == 2 * vr + b || value(q@) == 2 * vq
                        && value(rem@) == 2 * vr + b,
            ;
            assert((vq * vd + vr) * (2 * p) + b * p == (2 * vq * vd + 2 * vr + b) * p)
                by (nonlinear_arith);
        }
        i = i - 1;
    }
    proof {
        assert(pw(2, 0) == 1);
        assert(pval(bits@, 0, 2) == 0);
        assert((value(q@) * value(d@) + value(rem@)) * 1 == value(q@) * value(d@) + value(rem@))
            by (nonlinear_arith);
        vstd::arithmetic::div_mod::lemma_fundamental_div_mod_converse(
            value(a@) as int,
            value(d@) as int,
            value(q@) as int,
            value(rem@) as int,
        );
    }
    q
}

} // verus!
