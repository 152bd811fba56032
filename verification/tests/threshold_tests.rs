use metric_engine::error::Error;
use metric_engine::number::Binary64;
use metric_engine::threshold::Threshold;

fn num(x: f64) -> Binary64 {
    Binary64::from_bits(x.to_bits())
}

fn val(b: Binary64) -> f64 {
    f64::from_bits(b.to_bits())
}

#[test]
fn test_parse_value() {
    let expr = "1.2";
    let threshold = Threshold::parse(expr);
    match threshold {
        Ok(threshold) => {
            assert_eq!(val(threshold.start), 0_f64);
            assert_eq!(val(threshold.end), 1.2_f64);
            assert!(threshold.in_alert(num(2_f64)));
            assert!(threshold.in_alert(num(-1_f64)));
        }
        Err(err) => {
            panic!("We should not have this error here: {}", err.message());
        }
    }
}

#[test]
fn test_parse_val_colon() {
    let expr = "10:";
    let threshold = Threshold::parse(expr);
    match threshold {
        Ok(threshold) => {
            assert_eq!(val(threshold.start), 10_f64);
            assert_eq!(val(threshold.end), f64::INFINITY);
            assert!(!threshold.in_alert(num(10_f64)));
            assert!(!threshold.in_alert(num(11_f64)));
            assert!(threshold.in_alert(num(9_f64)));
        }
        Err(err) => {
            panic!("We should not have this error here: {}", err.message());
        }
    }
}

#[test]
fn test_parse_tilda_val() {
    let expr = "~:10";
    let threshold = Threshold::parse(expr);
    match threshold {
        Ok(threshold) => {
            assert_eq!(val(threshold.start), -f64::INFINITY);
            assert_eq!(val(threshold.end), 10_f64);
            assert!(!threshold.in_alert(num(10_f64)));
            assert!(threshold.in_alert(num(11_f64)));
            assert!(!threshold.in_alert(num(9_f64)));
        }
        Err(err) => {
            panic!("We should not have this error here: {}", err.message());
        }
    }
}

#[test]
fn test_parse_val_val() {
    let expr = "10:20";
    let threshold = Threshold::parse(expr);
    match threshold {
        Ok(threshold) => {
            assert_eq!(val(threshold.start), 10_f64);
            assert_eq!(val(threshold.end), 20_f64);
            assert!(!threshold.in_alert(num(10_f64)));
            assert!(!threshold.in_alert(num(11_f64)));
            assert!(threshold.in_alert(num(9_f64)));
            assert!(threshold.in_alert(num(21_f64)));
        }
        Err(err) => {
            panic!("We should not have this error here: {}", err.message());
        }
    }
}

#[test]
fn test_parse_bad_val_val() {
    let expr = "30:20";
    let threshold = Threshold::parse(expr);
    match threshold {
        Ok(_) => {
            panic!("The thrshold '{}' should not be valid", expr);
        }
        Err(err) => {
            assert_eq!(
                err.message(),
                "Threshold: The start value 30 must be less than the end value 20"
            );
        }
    }
}

#[test]
fn test_bad_range() {
    let expr = "10:20:30";
    let threshold = Threshold::parse(expr);
    match threshold {
        Ok(_) => {
            panic!("The threshold '{}' should not be valid", expr);
        }
        Err(err) => {
            assert_eq!(
                err.message(),
                "Threshold: The threshold syntax must follow '[@]start:end'"
            );
        }
    }
}

#[test]
fn test_threshold_foobar() {
    let expr = "foobar";
    let threshold = Threshold::parse(expr);
    match threshold {
        Ok(_) => {
            panic!("The threshold '{}' should not be valid", expr);
        }
        Err(err) => {
            assert_eq!(
                err.message(),
                "Threshold: The threshold syntax must follow '[@]start:end'"
            );
        }
    }
}

#[test]
fn test_threshold_12foo() {
    let expr = "12foo";
    let threshold = Threshold::parse(expr);
    match threshold {
        Ok(_) => {
            panic!("The threshold '{}' should not be valid", expr);
        }
        Err(err) => {
            assert_eq!(
                err.message(),
                "Threshold: The threshold syntax must follow '[@]start:end'"
            );
        }
    }
}

#[test]
fn test_threshold_bad_number() {
    let expr = "12e.1.e28";
    let threshold = Threshold::parse(expr);
    match threshold {
        Ok(_) => {
            panic!("The threshold '{}' should not be valid", expr);
        }
        Err(err) => {
            assert_eq!(
                err.message(),
                "Threshold: The threshold syntax must follow '[@]start:end'"
            );
        }
    }
}

#[test]
fn test_threshold_bad_number_and_range() {
    let expr = "12e.1.e28:1.2.3.4";
    let threshold = Threshold::parse(expr);
    match threshold {
        Ok(_) => {
            panic!("The threshold '{}' should not be valid", expr);
        }
        Err(err) => {
            assert_eq!(
                err.message(),
                "Threshold: The threshold syntax must follow '[@]start:end'"
            );
        }
    }
}

#[test]
fn test_threshold_not_allowed_negative() {
    let expr = "-12";
    let threshold = Threshold::parse(expr);
    match threshold {
        Ok(_) => {
            panic!("The threshold '{}' should not be valid", expr);
        }
        Err(err) => {
            assert_eq!(
                err.message(),
                "Threshold: This syntax is a shortcut of '0:-12', so -12 must be greater than 0."
            );
        }
    }
}

#[test]
fn test_threshold_negation() {
    let expr = "@2:12";
    let threshold = Threshold::parse(expr);
    match threshold {
        Ok(t) => {
            assert!(!t.in_alert(num(1_f64)));
            assert!(t.in_alert(num(2_f64)));
            assert!(t.in_alert(num(3_f64)));
            assert!(t.in_alert(num(12_f64)));
            assert!(!t.in_alert(num(13_f64)));
        }
        Err(err) => {
            panic!("We should not have this error here: {}", err.message());
        }
    }
}

#[test]
fn test_threshold_bad_negation() {
    let expr = "2@:12";
    let threshold = Threshold::parse(expr);
    match threshold {
        Ok(_) => {
            panic!("We should not have a threshold here");
        }
        Err(err) => {
            assert_eq!(
                err.message(),
                "Threshold: The threshold syntax must follow '[@]start:end'"
            );
        }
    }
}

#[test]
fn test_threshold_bad_negation1() {
    let expr = "2:@12";
    let threshold = Threshold::parse(expr);
    match threshold {
        Ok(_) => {
            panic!("We should not have a threshold here");
        }
        Err(err) => {
            assert_eq!(
                err.message(),
                "Threshold: The threshold syntax must follow '[@]start:end'"
            );
        }
    }
}

#[test]
fn test_threshold_bad_negation2() {
    let expr = "@@2:12";
    let threshold = Threshold::parse(expr);
    match threshold {
        Ok(_) => {
            panic!("We should not have a threshold here");
        }
        Err(err) => {
            assert_eq!(
                err.message(),
                "Threshold: The threshold syntax must follow '[@]start:end'"
            );
        }
    }
}

#[test]
fn threshold_errors_carry_their_values() {
    assert_eq!(
        Threshold::parse("30:20"),
        Err(Error::BadThresholdRange { start: num(30.0), end: num(20.0) })
    );
    assert_eq!(Threshold::parse("-12"), Err(Error::NegativeSimpleThreshold { value: num(-12.0) }));
    assert_eq!(Threshold::parse("0"), Err(Error::NegativeSimpleThreshold { value: num(0.0) }));
    assert_eq!(
        Threshold::parse(""),
        Err(Error::NegativeSimpleThreshold { value: num(f64::NEG_INFINITY) })
    );
    assert_eq!(Threshold::parse("1:2:3"), Err(Error::BadThreshold));
    assert_eq!(Threshold::parse("5 @"), Err(Error::BadThreshold));
    assert_eq!(Threshold::parse("1e"), Err(Error::BadThreshold));
}

#[test]
fn threshold_reads_blanks_exponents_and_open_ends() {
    let t = Threshold::parse(" @ 1e1 : 2.5e1 ").unwrap();
    assert_eq!(val(t.start), 10.0);
    assert_eq!(val(t.end), 25.0);
    assert!(t.negation);
    let t = Threshold::parse("-5:").unwrap();
    assert_eq!(val(t.start), -5.0);
    assert_eq!(val(t.end), f64::INFINITY);
    let t = Threshold::parse("~:").unwrap();
    assert_eq!(val(t.start), f64::NEG_INFINITY);
    assert_eq!(val(t.end), f64::INFINITY);
    assert!(!t.in_alert(num(1e300)));
    let t = Threshold::parse("5:5").unwrap();
    assert!(!t.in_alert(num(5.0)));
    assert!(t.in_alert(num(5.000001)));
}

#[test]
fn threshold_boundaries_are_inside_in_both_polarities() {
    let plain = Threshold::parse("10:20").unwrap();
    let negated = Threshold::parse("@10:20").unwrap();
    for edge in [10.0, 20.0] {
        assert!(!plain.in_alert(num(edge)));
        assert!(negated.in_alert(num(edge)));
    }
    for value in [-1.0, 9.0, 9.999, 10.0, 15.0, 20.0, 20.001, 21.0, 1e9] {
        assert_eq!(plain.in_alert(num(value)), !negated.in_alert(num(value)));
    }
}
