use metric_engine::ast::{ArithOp, EvalError, Expr, ExprResult, Func};
use metric_engine::compute::Parser;
use metric_engine::error::Error;
use metric_engine::eval::{average, greatest, least};
use metric_engine::lexer::LexicalError;
use metric_engine::number::Binary64;
use metric_engine::parser::{parse, tokenize, ParseError};
use metric_engine::snmp::{find_value, SnmpResult};

fn num(x: f64) -> Binary64 {
    Binary64::from_bits(x.to_bits())
}

fn val(b: Binary64) -> f64 {
    f64::from_bits(b.to_bits())
}

fn nums(xs: &[f64]) -> Vec<Binary64> {
    xs.iter().map(|x| num(*x)).collect()
}

fn vector(xs: &[f64]) -> ExprResult {
    ExprResult::Vector(nums(xs))
}

fn strings(xs: &[&str]) -> ExprResult {
    ExprResult::StrVector(xs.iter().map(|s| s.to_string()).collect())
}

fn floats(r: ExprResult) -> Vec<f64> {
    match r {
        ExprResult::Vector(v) => v.iter().map(|b| val(*b)).collect(),
        other => panic!("expected a vector, got {:?}", other),
    }
}

fn float(r: ExprResult) -> f64 {
    match r {
        ExprResult::Number(n) => val(n),
        other => panic!("expected a number, got {:?}", other),
    }
}

fn texts(r: ExprResult) -> Vec<String> {
    match r {
        ExprResult::StrVector(v) => v,
        other => panic!("expected a list of strings, got {:?}", other),
    }
}

fn text(r: ExprResult) -> String {
    match r {
        ExprResult::Str(s) => s,
        other => panic!("expected a string, got {:?}", other),
    }
}

#[test]
fn nested_parentheses_must_balance() {
    assert_eq!(parse("(((123))").unwrap_err(), ParseError::UnexpectedEnd);
    let tree = parse("(((123)))").unwrap();
    match tree {
        Expr::Number(n) => assert_eq!(val(n), 123.0),
        other => panic!("expected a number, got {:?}", other),
    }
}

#[test]
fn parse_errors_say_what_went_wrong() {
    assert_eq!(parse("").unwrap_err(), ParseError::UnexpectedEnd);
    assert_eq!(parse("1 +").unwrap_err(), ParseError::UnexpectedEnd);
    assert_eq!(parse("1 2").unwrap_err(), ParseError::TrailingInput { start: 2, end: 3 });
    assert_eq!(parse("1)").unwrap_err(), ParseError::TrailingInput { start: 1, end: 2 });
    assert_eq!(parse("abc + 1").unwrap_err(), ParseError::UnexpectedToken { start: 0, end: 3 });
    assert_eq!(parse("* 2").unwrap_err(), ParseError::UnexpectedToken { start: 0, end: 1 });
    assert_eq!(parse("{1}").unwrap_err(), ParseError::UnexpectedToken { start: 1, end: 2 });
    assert_eq!(parse("{abc").unwrap_err(), ParseError::UnexpectedEnd);
    assert_eq!(parse("{abc)").unwrap_err(), ParseError::UnexpectedToken { start: 4, end: 5 });
    assert_eq!(parse("Min 1").unwrap_err(), ParseError::UnexpectedToken { start: 4, end: 5 });
    assert_eq!(parse("Sum(1)").unwrap_err(), ParseError::UnexpectedToken { start: 0, end: 3 });
    assert_eq!(parse("Max(1").unwrap_err(), ParseError::UnexpectedEnd);
    assert_eq!(parse("1 + $").unwrap_err(), ParseError::Lexical(LexicalError::NotPossible));
    assert_eq!(parse("$ (").unwrap_err(), ParseError::Lexical(LexicalError::NotPossible));
    assert_eq!(tokenize("1 \u{e9}"), Err(LexicalError::NotPossible));
}

#[test]
fn operators_group_from_the_left_and_products_bind_tighter() {
    match parse("1 - 2 - 3").unwrap() {
        Expr::OpMinus(l, r) => {
            assert!(matches!(*l, Expr::OpMinus(_, _)));
            assert!(matches!(*r, Expr::Number(_)));
        }
        other => panic!("unexpected tree {:?}", other),
    }
    match parse("1 + 2 * 3 / 4").unwrap() {
        Expr::OpPlus(l, r) => {
            assert!(matches!(*l, Expr::Number(_)));
            match *r {
                Expr::OpSlash(l, _) => assert!(matches!(*l, Expr::OpStar(_, _))),
                other => panic!("unexpected tree {:?}", other),
            }
        }
        other => panic!("unexpected tree {:?}", other),
    }
    match parse("Max( {a.b} )").unwrap() {
        Expr::Fn(Func::Max, inner) => match *inner {
            Expr::Id(name) => assert_eq!(name, b"a.b".to_vec()),
            other => panic!("unexpected tree {:?}", other),
        },
        other => panic!("unexpected tree {:?}", other),
    }
}

#[test]
fn division_by_zero_follows_ieee() {
    let none: Vec<SnmpResult> = vec![];
    assert_eq!(float(parse("1 / 0").unwrap().eval(&none).unwrap()), f64::INFINITY);
    assert_eq!(float(parse("(0 - 1) / 0").unwrap().eval(&none).unwrap()), f64::NEG_INFINITY);
    assert!(float(parse("0 / 0").unwrap().eval(&none).unwrap()).is_nan());
}

#[test]
fn unequal_vectors_keep_the_left_tail_and_turn_the_right_one() {
    let long = vector(&[8.0, 6.0, 4.0]);
    let short = vector(&[2.0]);
    let pairs: [(ArithOp, Vec<f64>, Vec<f64>); 4] = [
        (ArithOp::Add, vec![10.0, 6.0, 4.0], vec![10.0, 6.0, 4.0]),
        (ArithOp::Sub, vec![6.0, 6.0, 4.0], vec![-6.0, -6.0, -4.0]),
        (ArithOp::Mul, vec![16.0, 6.0, 4.0], vec![16.0, 6.0, 4.0]),
        (ArithOp::Div, vec![4.0, 6.0, 4.0], vec![0.25, 1.0 / 6.0, 0.25]),
    ];
    for (op, left_long, right_long) in pairs {
        let r = long.duplicate().arith(op, short.duplicate()).unwrap();
        assert_eq!(floats(r), left_long);
        let r = short.duplicate().arith(op, long.duplicate()).unwrap();
        assert_eq!(floats(r), right_long);
    }
    assert_eq!(floats(long.duplicate().sub(short.duplicate()).unwrap()), vec![6.0, 6.0, 4.0]);
    assert_eq!(floats(short.duplicate().div(long.duplicate()).unwrap()), vec![0.25, 1.0 / 6.0, 0.25]);
    assert_eq!(floats(long.duplicate().add(short.duplicate()).unwrap()), vec![10.0, 6.0, 4.0]);
    assert_eq!(floats(long.duplicate().mul(short.duplicate()).unwrap()), vec![16.0, 6.0, 4.0]);
}

#[test]
fn a_number_spreads_over_a_vector_on_its_own_side() {
    let v = vector(&[1.0, 2.0, 4.0]);
    let n = ExprResult::Number(num(8.0));
    assert_eq!(floats(n.duplicate().sub(v.duplicate()).unwrap()), vec![7.0, 6.0, 4.0]);
    assert_eq!(floats(v.duplicate().sub(n.duplicate()).unwrap()), vec![-7.0, -6.0, -4.0]);
    assert_eq!(floats(n.duplicate().div(v.duplicate()).unwrap()), vec![8.0, 4.0, 2.0]);
    assert_eq!(floats(v.duplicate().div(n.duplicate()).unwrap()), vec![0.125, 0.25, 0.5]);
    assert_eq!(floats(vector(&[]).add(vector(&[])).unwrap()), Vec::<f64>::new());
}

#[test]
fn text_and_nothing_do_not_take_part_in_arithmetic() {
    let kinds = [
        ExprResult::Str("a".to_string()),
        strings(&["a"]),
        ExprResult::Empty,
    ];
    for k in kinds.iter() {
        for op in [ArithOp::Add, ArithOp::Sub, ArithOp::Mul, ArithOp::Div] {
            let r = k.duplicate().arith(op, ExprResult::Number(num(1.0)));
            assert_eq!(r.unwrap_err(), EvalError::TypeMismatch);
            let r = vector(&[1.0]).arith(op, k.duplicate());
            assert_eq!(r.unwrap_err(), EvalError::TypeMismatch);
        }
    }
}

#[test]
fn functions_fold_vectors_and_leave_numbers() {
    let nan = f64::NAN;
    assert_eq!(val(average(&nums(&[1.0, nan, 3.0]))), 2.0);
    assert!(val(average(&nums(&[nan, nan]))).is_nan());
    assert!(val(average(&nums(&[]))).is_nan());
    assert_eq!(val(least(&nums(&[3.0, nan, -2.0, 7.0]))), -2.0);
    assert_eq!(val(greatest(&nums(&[3.0, nan, -2.0, 7.0]))), 7.0);
    assert_eq!(val(least(&nums(&[]))), f64::INFINITY);
    assert_eq!(val(greatest(&nums(&[]))), f64::NEG_INFINITY);
    assert_eq!(val(least(&nums(&[nan]))), f64::INFINITY);
    let collect = vec![SnmpResult::new(vec![
        ("v".to_string(), vector(&[4.0, 1.0, 10.0])),
        ("s".to_string(), strings(&["x", "y"])),
    ])];
    assert_eq!(float(parse("Min({v})").unwrap().eval(&collect).unwrap()), 1.0);
    assert_eq!(float(parse("Max({v})").unwrap().eval(&collect).unwrap()), 10.0);
    assert_eq!(float(parse("Average({v})").unwrap().eval(&collect).unwrap()), 5.0);
    assert_eq!(float(parse("Average(7)").unwrap().eval(&collect).unwrap()), 7.0);
    assert_eq!(float(parse("Min(7)").unwrap().eval(&collect).unwrap()), 7.0);
    assert_eq!(
        parse("Max({s})").unwrap().eval(&collect).unwrap_err(),
        EvalError::TypeMismatch
    );
}

#[test]
fn names_are_looked_up_in_order_and_missing_ones_are_zero() {
    let collect = vec![
        SnmpResult::new(vec![("a".to_string(), vector(&[1.0, 2.0]))]),
        SnmpResult::new(vec![
            ("a".to_string(), vector(&[9.0])),
            ("b".to_string(), vector(&[5.0])),
            ("n".to_string(), ExprResult::Number(num(4.0))),
        ]),
    ];
    assert_eq!(floats(parse("{a}").unwrap().eval(&collect).unwrap()), vec![1.0, 2.0]);
    assert_eq!(float(parse("{b}").unwrap().eval(&collect).unwrap()), 5.0);
    assert_eq!(float(parse("{n}").unwrap().eval(&collect).unwrap()), 4.0);
    assert_eq!(float(parse("{missing}").unwrap().eval(&collect).unwrap()), 0.0);
    assert_eq!(
        parse("{missing}").unwrap().eval_strict(&collect).unwrap_err(),
        EvalError::UnknownMetric
    );
    assert_eq!(float(parse("{b}").unwrap().eval_strict(&collect).unwrap()), 5.0);
    assert!(find_value(&collect, b"zzz").is_none());
    assert!(find_value(&collect, b"b").is_some());
}

#[test]
fn parser_reports_parse_and_evaluation_failures_apart() {
    let collect = vec![SnmpResult::new(vec![("s".to_string(), strings(&["x"]))])];
    let parser = Parser::new(&collect);
    assert_eq!(parser.eval("1 +").unwrap_err(), Error::Parse { cause: ParseError::UnexpectedEnd });
    assert_eq!(
        parser.eval("{s} + 1").unwrap_err(),
        Error::Eval { reason: EvalError::TypeMismatch }
    );
    assert_eq!(float(parser.eval("2 * 21").unwrap()), 42.0);
}

#[test]
fn a_formula_that_is_a_name_gives_the_name() {
    assert_eq!(parse("{abc}").unwrap().eval_as_str(), b"abc".to_vec());
    assert_eq!(parse("1 + 2").unwrap().eval_as_str(), b"Bad value".to_vec());
}

#[test]
fn templates_join_text_and_values() {
    let collect = vec![SnmpResult::new(vec![
        ("one".to_string(), strings(&["a"])),
        ("two".to_string(), strings(&["x", "y"])),
        ("three".to_string(), strings(&["p", "q", "r"])),
        ("n".to_string(), ExprResult::Number(num(40.009))),
        ("v".to_string(), vector(&[1.0, 2.5])),
        ("t".to_string(), ExprResult::Str("txt".to_string())),
        ("nothing".to_string(), ExprResult::Empty),
    ])];
    let parser = Parser::new(&collect);
    assert_eq!(text(parser.eval_str("").unwrap()), "");
    assert_eq!(text(parser.eval_str("plain \u{e9}t\u{e9}").unwrap()), "plain \u{e9}t\u{e9}");
    assert_eq!(text(parser.eval_str("a{missing}b").unwrap()), "ab");
    assert_eq!(text(parser.eval_str("{t}{t}").unwrap()), "txttxt");
    assert_eq!(text(parser.eval_str("n={n}!").unwrap()), "n=40.01!");
    assert_eq!(texts(parser.eval_str("{v}u").unwrap()), vec!["1u", "2.5u"]);
    assert_eq!(texts(parser.eval_str("<{two}>").unwrap()), vec!["<x>", "<y>"]);
    assert_eq!(texts(parser.eval_str("{two}-{three}").unwrap()), vec!["x-p", "y-q", "r"]);
    assert_eq!(texts(parser.eval_str("{three}{two}").unwrap()), vec!["px", "qy", "r"]);
    assert_eq!(texts(parser.eval_str("{one}").unwrap()), vec!["a"]);
    assert_eq!(text(parser.eval_str("{ not a name }{1x}{}").unwrap()), "{ not a name }{1x}{}");
    assert_eq!(text(parser.eval_str("{a.b_c9").unwrap()), "{a.b_c9");
    assert_eq!(
        parser.eval_str("x{nothing}").unwrap_err(),
        Error::Eval { reason: EvalError::TypeMismatch }
    );
}

#[test]
fn joins_fail_on_values_that_are_no_text() {
    let mut n = ExprResult::Number(num(1.0));
    assert_eq!(n.join(&ExprResult::Str("a".to_string())).unwrap_err(), EvalError::TypeMismatch);
    assert_eq!(floats(ExprResult::Vector(vec![])), Vec::<f64>::new());
    let mut e = ExprResult::Empty;
    assert_eq!(e.join(&ExprResult::Empty).unwrap_err(), EvalError::TypeMismatch);
    assert!(matches!(e, ExprResult::Empty));
    e.join(&strings(&["a", "b"])).unwrap();
    e.join(&ExprResult::Number(num(2.0))).unwrap();
    assert_eq!(texts(e), vec!["a2", "b2"]);
}
