use tokamak::binary64::Binary64;

fn num(x: f64) -> Binary64 {
    Binary64 { bits: x.to_bits() }
}

/// A stream of words that look random.
fn words(n: usize) -> Vec<u64> {
    let mut x: u64 = 0x9e37_79b9_7f4a_7c15;
    let mut out = Vec::new();
    for _ in 0..n {
        x ^= x << 13;
        x ^= x >> 7;
        x ^= x << 17;
        out.push(x);
    }
    out
}

/// Numbers of all kinds: ordinary, tiny, huge, infinite and not numbers.
fn samples() -> Vec<f64> {
    let mut out = vec![
        0.0,
        -0.0,
        1.0,
        -1.0,
        0.1,
        0.9,
        2.0,
        3.0,
        1e308,
        f64::MAX,
        f64::MIN_POSITIVE,
        f64::from_bits(1),
        f64::from_bits(0x000f_ffff_ffff_ffff),
        f64::INFINITY,
        f64::NEG_INFINITY,
        f64::NAN,
        9007199254740993.0,
        18446744073709551615.0,
    ];
    for w in words(60) {
        out.push(f64::from_bits(w));
        // close to 1, where products and quotients are ordinary
        out.push(f64::from_bits((w >> 12) | 0x3ff0_0000_0000_0000));
        // close to the smallest numbers
        out.push(f64::from_bits(w >> 8));
    }
    out
}

fn agrees(got: Binary64, want: f64) -> bool {
    got.bits == want.to_bits() || (f64::from_bits(got.bits).is_nan() && want.is_nan())
}

#[test]
fn products_are_rounded_as_the_machine_rounds_them() {
    for x in samples() {
        for y in samples() {
            assert!(agrees(num(x).times(num(y)), x * y), "{x:e} * {y:e}");
        }
    }
}

#[test]
fn quotients_are_rounded_as_the_machine_rounds_them() {
    for x in samples() {
        for y in samples() {
            assert!(agrees(num(x).over(num(y)), x / y), "{x:e} / {y:e}");
        }
    }
}

#[test]
fn sums_are_rounded_as_the_machine_rounds_them() {
    for x in samples() {
        for y in samples() {
            if x.is_sign_positive() && y.is_sign_positive() && !x.is_nan() && !y.is_nan() {
                assert!(agrees(num(x).plus(num(y)), x + y), "{x:e} + {y:e}");
            }
        }
    }
}

#[test]
fn numbers_are_ordered_as_the_machine_orders_them() {
    for x in samples() {
        for y in samples() {
            assert_eq!(num(x).below(num(y)), x < y, "{x:e} < {y:e}");
            assert_eq!(num(x).at_most(num(y)), x <= y, "{x:e} <= {y:e}");
        }
    }
}

#[test]
fn whole_numbers_are_rounded_and_cut_off() {
    for w in words(500) {
        for n in [w, w >> 11, w >> 40, w >> 1] {
            assert_eq!(Binary64::of(n).bits, (n as f64).to_bits());
        }
    }
    for x in samples() {
        assert_eq!(num(x).truncated(), x as u64, "{x:e}");
    }
    assert_eq!(Binary64::of(u64::MAX).bits, (u64::MAX as f64).to_bits());
    assert_eq!(Binary64::zero().bits, 0);
}
