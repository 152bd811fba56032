use metric_engine::number::{check_decimal, Binary64};

fn num(x: f64) -> Binary64 {
    Binary64::from_bits(x.to_bits())
}

fn val(b: Binary64) -> f64 {
    f64::from_bits(b.to_bits())
}

#[test]
fn arithmetic_agrees_with_hardware() {
    let samples = [
        0.0, -0.0, 1.0, -1.0, 0.1, 0.2, 0.3, 3.6, 18.0, 5.0, 29600.0, 747712.0, 1e308, -1e308,
        5e-324, 2.2250738585072014e-308, 1e-200, 123456789.125, f64::INFINITY, f64::NEG_INFINITY,
        19.2,
    ];
    for a in samples {
        for b in samples {
            let checks = [
                (val(num(a).plus(num(b))), a + b),
                (val(num(a).minus(num(b))), a - b),
                (val(num(a).times(num(b))), a * b),
                (val(num(a).over(num(b))), a / b),
            ];
            for (got, want) in checks {
                if want.is_nan() {
                    assert!(got.is_nan(), "{} {}", a, b);
                } else {
                    assert_eq!(got.to_bits(), want.to_bits(), "{} {}", a, b);
                }
            }
        }
    }
}

#[test]
fn arithmetic_on_pseudo_random_bits() {
    let mut s: u64 = 0x9e37_79b9_7f4a_7c15;
    for _ in 0..3000 {
        s = s.wrapping_mul(6364136223846793005).wrapping_add(1442695040888963407);
        let a = f64::from_bits(s);
        s = s.wrapping_mul(6364136223846793005).wrapping_add(1442695040888963407);
        let b = f64::from_bits(s);
        let checks = [
            (val(num(a).plus(num(b))), a + b),
            (val(num(a).minus(num(b))), a - b),
            (val(num(a).times(num(b))), a * b),
            (val(num(a).over(num(b))), a / b),
        ];
        for (got, want) in checks {
            if want.is_nan() {
                assert!(got.is_nan());
            } else {
                assert_eq!(got.to_bits(), want.to_bits(), "{:e} {:e}", a, b);
            }
        }
        assert_eq!(num(a).lt(num(b)), a < b);
        assert_eq!(num(a).gt(num(b)), a > b);
        assert_eq!(num(a).le(num(b)), a <= b);
        assert_eq!(num(a).same(num(b)), a == b);
        assert_eq!(num(a).is_nan(), a.is_nan());
        assert_eq!(val(num(a).negated()).to_bits(), (-a).to_bits());
    }
}

#[test]
fn comparisons_at_the_edges() {
    let z = num(0.0);
    let nz = num(-0.0);
    assert!(z.same(nz));
    assert!(!z.lt(nz));
    assert!(!nz.lt(z));
    assert!(z.le(nz));
    let nan = Binary64::nan();
    assert!(nan.is_nan());
    assert!(!nan.same(nan));
    assert!(!nan.lt(z));
    assert!(!z.lt(nan));
    assert!(!nan.le(nan));
    assert!(Binary64::neg_infinity().lt(Binary64::infinity()));
    assert_eq!(val(Binary64::one()), 1.0);
    assert_eq!(val(Binary64::zero()), 0.0);
    assert_eq!(val(Binary64::infinity()), f64::INFINITY);
    assert_eq!(val(Binary64::neg_infinity()), f64::NEG_INFINITY);
}

#[test]
fn from_int_agrees_with_hardware() {
    for n in [0u64, 1, 2, 3, 1000, 1 << 53, (1 << 53) + 1, u64::MAX] {
        assert_eq!(val(Binary64::from_int(n)), n as f64);
    }
}

#[test]
fn parse_decimal_agrees_with_std() {
    let texts = [
        "0", "1", "123", "1.2", "19.2", "-12", "+5", "5.", ".5", "1e5", "1E5", "1e+5", "1e-5",
        "12.5e3", "0.1", "0.30000000000000004", "1e400", "1e-400", "96.04125652657707",
        "179769313486231570000000000000000000000", "4.9e-324", "2.2250738585072011e-308",
        "9007199254740993", "0.000001", "1.e2",
    ];
    for t in texts {
        let want: f64 = t.parse().unwrap();
        let got = Binary64::parse_decimal(t.as_bytes()).unwrap();
        assert_eq!(val(got).to_bits(), want.to_bits(), "{}", t);
    }
}

#[test]
fn parse_decimal_rejects_what_std_rejects() {
    let texts = [
        "", ".", "-", "+", "e5", "1e", "1e+", "1e-", "1.2.3", "12e.1.e28", "1.2.3.4", "abc",
        "1 ", " 1", "--1", "+-1", "1e5.0", "0x10", "inf", "nan", "1_000", "1.e", "\u{e9}",
    ];
    for t in texts {
        assert!(!check_decimal(t.as_bytes()), "{}", t);
        assert!(Binary64::parse_decimal(t.as_bytes()).is_none(), "{}", t);
    }
    for t in ["inf", "nan"] {
        assert!(t.parse::<f64>().is_ok());
    }
    for t in ["", ".", "-", "e5", "1e", "1e+", "1.2.3", "12e.1.e28", "1 ", "--1", "0x10", "1.e"] {
        assert!(t.parse::<f64>().is_err(), "{}", t);
    }
}
