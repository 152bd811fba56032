use metric_engine::ast::{ArithOp, ExprResult};
use metric_engine::number::Binary64;
use metric_engine::parser::parse;
use metric_engine::snmp::SnmpResult;
use metric_engine::threshold::Threshold;

fn num(x: f64) -> Binary64 {
    Binary64::from_bits(x.to_bits())
}

fn val(b: Binary64) -> f64 {
    f64::from_bits(b.to_bits())
}

fn vector(xs: &[f64]) -> ExprResult {
    ExprResult::Vector(xs.iter().map(|x| num(*x)).collect())
}

fn next(seed: &mut u64) -> u64 {
    *seed = seed.wrapping_mul(6364136223846793005).wrapping_add(1442695040888963407);
    *seed >> 33
}

fn small(seed: &mut u64) -> f64 {
    let n = next(seed) % 2001;
    (n as f64 - 1000.0) / 8.0
}

fn op_on(op: ArithOp, a: f64, b: f64) -> f64 {
    match op {
        ArithOp::Add => a + b,
        ArithOp::Sub => a - b,
        ArithOp::Mul => a * b,
        ArithOp::Div => a / b,
    }
}

fn expected(op: ArithOp, a: &[f64], b: &[f64]) -> Vec<f64> {
    let n = a.len().max(b.len());
    (0..n)
        .map(|i| {
            if i < a.len() && i < b.len() {
                op_on(op, a[i], b[i])
            } else if i < a.len() {
                a[i]
            } else {
                match op {
                    ArithOp::Add | ArithOp::Mul => b[i],
                    ArithOp::Sub => -b[i],
                    ArithOp::Div => 1.0 / b[i],
                }
            }
        })
        .collect()
}

fn same(got: &[f64], want: &[f64]) -> bool {
    got.len() == want.len()
        && got.iter().zip(want).all(|(g, w)| (g.is_nan() && w.is_nan()) || g.to_bits() == w.to_bits())
}

#[test]
fn vectors_of_any_two_lengths_combine_as_described() {
    let mut seed = 7u64;
    for _ in 0..400 {
        let a: Vec<f64> = (0..next(&mut seed) % 6).map(|_| small(&mut seed)).collect();
        let b: Vec<f64> = (0..next(&mut seed) % 6).map(|_| small(&mut seed)).collect();
        for op in [ArithOp::Add, ArithOp::Sub, ArithOp::Mul, ArithOp::Div] {
            let got = match vector(&a).arith(op, vector(&b)).unwrap() {
                ExprResult::Vector(v) => v.iter().map(|x| val(*x)).collect::<Vec<f64>>(),
                other => panic!("expected a vector, got {:?}", other),
            };
            assert!(same(&got, &expected(op, &a, &b)), "{:?} {:?} {:?}", op, a, b);
        }
    }
}

#[test]
fn formulas_agree_with_plain_arithmetic() {
    let none: Vec<SnmpResult> = vec![];
    let mut seed = 99u64;
    for _ in 0..300 {
        let a = small(&mut seed).abs();
        let b = small(&mut seed).abs();
        let c = small(&mut seed).abs() + 0.5;
        let d = small(&mut seed).abs();
        let text = format!("{} - {} * ({} + {}) / {} + {}", a, b, a, d, c, d);
        let want = a - b * (a + d) / c + d;
        match parse(&text).unwrap().eval(&none).unwrap() {
            ExprResult::Number(n) => assert_eq!(val(n).to_bits(), want.to_bits(), "{}", text),
            other => panic!("expected a number, got {:?}", other),
        }
    }
}

#[test]
fn ranges_alert_as_comparisons_say() {
    let mut seed = 5u64;
    for _ in 0..300 {
        let x = small(&mut seed);
        let y = small(&mut seed);
        let (lo, hi) = if x <= y { (x, y) } else { (y, x) };
        let negated = next(&mut seed) % 2 == 0;
        let text = format!("{}{}:{}", if negated { "@" } else { "" }, lo, hi);
        let t = Threshold::parse(&text).unwrap();
        assert_eq!(val(t.start), lo, "{}", text);
        assert_eq!(val(t.end), hi, "{}", text);
        for _ in 0..20 {
            let v = small(&mut seed);
            let outside = v < lo || v > hi;
            assert_eq!(t.in_alert(num(v)), outside != negated, "{} {}", text, v);
        }
        assert_eq!(t.in_alert(num(lo)), negated);
        assert_eq!(t.in_alert(num(hi)), negated);
        assert_eq!(t.in_alert(num(f64::NAN)), negated);
    }
}
