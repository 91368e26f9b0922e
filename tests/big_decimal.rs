use burrowland::big_decimal::{BigDecimal, LowU128};

// Number of milliseconds in a regular year.
const N: u64 = 31536000000;
// X = 2
const LOW_X: LowU128 = LowU128(2000000000000000000000000000);
// R ** N = X. So R = X ** (1/N)
const LOW_R: LowU128 = LowU128(1000000000021979552909930328);

fn b(a: u128) -> BigDecimal {
    BigDecimal::from_u128(a)
}

fn almost_eq(a: u128, b: u128, prec: u32) {
    let p = 10u128.pow(27 - prec);
    let ap = (a + p / 2) / p;
    let bp = (b + p / 2) / p;
    assert_eq!(
        ap,
        bp,
        "{}",
        format!("Expected {} to eq {}, with precision {}", a, b, prec)
    );
}

#[test]
fn test_simple_add() {
    assert_eq!((b(0).add(&b(0))).round_u128(), 0);
    assert_eq!((b(5).add(&b(2))).round_u128(), 7);
    assert_eq!((b(2).add(&b(5))).round_u128(), 7);
    assert_eq!((b(5).add(&b(0))).round_u128(), 5);
    assert_eq!((b(0).add(&b(5))).round_u128(), 5);
}

#[test]
fn test_simple_div() {
    assert_eq!((b(17).div(&b(5))).round_u128(), 3);
    assert_eq!((b(18).div(&b(5))).round_u128(), 4);
    assert_eq!((b(3).div(&b(5))).round_u128(), 1);
}

#[test]
fn test_pow() {
    let r = BigDecimal::from_low_u128(LOW_R);
    let x = r.pow(N);
    let low_x = LowU128::from_big_decimal(&x);
    almost_eq(LOW_X.0, low_x.0, 15);
}

#[test]
fn test_compound_pow() {
    fn test(split_n: u64) {
        let r = BigDecimal::from_low_u128(LOW_R);
        let initial_val = 12345 * 10u128.pow(24);
        let mut val = initial_val;
        for i in 1..=split_n {
            let exponent = (N * i / split_n) - (N * (i - 1) / split_n);
            let interest = r.pow(exponent);
            val = interest.round_mul_u128(val);
        }
        almost_eq(val, initial_val * 2, 15);
    }

    (1..=100).for_each(test);
}

#[test]
fn test_compound_pow_precision() {
    fn test(split_n: u64) {
        let r = BigDecimal::from_low_u128(LOW_R);
        let initial_val = 12345 * 10u128.pow(24);
        let mut val = initial_val;
        let exponent = N / split_n;
        assert_eq!(exponent * split_n, N);
        let interest = r.pow(exponent);
        for _ in 1..=split_n {
            val = interest.round_mul_u128(val);
        }
        almost_eq(val, initial_val * 2, 15);
    }
    test(N / 60000);
    test(N / 1000000);
    test(N / (24 * 60 * 60));
}
