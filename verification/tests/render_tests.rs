use metric_engine::ast::ExprResult;
use metric_engine::compute::{Compute, Metric};
use metric_engine::generic::{Collect, Command, Perfdata};
use metric_engine::number::Binary64;
use metric_engine::output::Output;
use metric_engine::render::{perf_line, perf_string, OutputFormatter};
use metric_engine::snmp::SnmpResult;
use metric_engine::status::Status;

fn num(x: f64) -> Binary64 {
    Binary64::from_bits(x.to_bits())
}

fn vector(xs: &[f64]) -> ExprResult {
    ExprResult::Vector(xs.iter().map(|x| num(*x)).collect())
}

fn perf(name: &str, value: f64, status: Option<Status>) -> Perfdata {
    Perfdata {
        name: name.to_string(),
        value: num(value),
        uom: "%".to_string(),
        min: None,
        max: None,
        warning: None,
        critical: None,
        status,
    }
}

fn metric(name: &str, value: &str) -> Metric {
    Metric {
        name: name.to_string(),
        prefix: None,
        value: value.to_string(),
        uom: "B".to_string(),
        min_expr: None,
        min: None,
        max_expr: None,
        max: None,
        threshold_suffix: None,
        warning: None,
        critical: None,
    }
}

#[test]
fn a_measurement_is_written_with_all_its_parts() {
    let mut p = perf("0#cpu", 40.009, Some(Status::Okay));
    assert_eq!(perf_string(&p), "0#cpu=40.01%;;;;");
    p.warning = Some("80".to_string());
    p.critical = Some("@90:".to_string());
    p.min = Some(num(0.0));
    p.max = Some(num(100.0));
    assert_eq!(perf_string(&p), "0#cpu=40.01%;80;@90:;0;100");
    let q = perf("1#cpu", 7.0, None);
    assert_eq!(perf_line(&vec![]), "");
    assert_eq!(perf_line(&vec![q]), "1#cpu=7%;;;;");
    let q = perf("1#cpu", 7.0, None);
    assert_eq!(perf_line(&vec![p, q]), "0#cpu=40.01%;80;@90:;0;100 1#cpu=7%;;;;");
}

#[test]
fn the_headline_lists_what_is_at_least_as_bad_as_the_status() {
    let collect: Vec<SnmpResult> = vec![];
    let metrics = vec![
        perf("a", 1.0, Some(Status::Okay)),
        perf("b", 2.5, Some(Status::Warning)),
        perf("c", 3.0, Some(Status::Critical)),
        perf("d", 4.0, None),
        perf("e", 5.0, Some(Status::Unknown)),
    ];
    let wording = Output::new();
    let line = "a=1%;;;; b=2.5%;;;; c=3%;;;; d=4%;;;; e=5%;;;;";
    let f = OutputFormatter::new(Status::Warning, &collect, &metrics, &wording);
    assert_eq!(f.build_detail("x: "), "x: b is 2.5%, c is 3%, e is 5%");
    assert_eq!(f.to_string(), format!("WARNING: b is 2.5%, c is 3%, e is 5% | {}", line));
    let f = OutputFormatter::new(Status::Critical, &collect, &metrics, &wording);
    assert_eq!(f.to_string(), format!("CRITICAL: c is 3%, e is 5% | {}", line));
    let f = OutputFormatter::new(Status::Unknown, &collect, &metrics, &wording);
    assert_eq!(f.to_string(), format!("UNKNOWN: e is 5% | {}", line));
    let f = OutputFormatter::new(Status::Okay, &collect, &metrics, &wording);
    assert_eq!(f.to_string(), format!("Everything is OK | {}", line));
}

#[test]
fn wording_without_details_and_with_details_for_okay() {
    let collect: Vec<SnmpResult> = vec![];
    let metrics = vec![perf("a", 1.0, Some(Status::Okay)), perf("b", 2.0, Some(Status::Warning))];
    let mut wording = Output::new();
    wording.detail_warning = false;
    wording.detail_ok = true;
    wording.metric_separator = " / ".to_string();
    let f = OutputFormatter::new(Status::Warning, &collect, &metrics, &wording);
    assert_eq!(f.to_string(), "WARNING:  | a=1%;;;; b=2%;;;;");
    let f = OutputFormatter::new(Status::Okay, &collect, &metrics, &wording);
    assert_eq!(f.to_string(), "Everything is OKa is 1% / b is 2% | a=1%;;;; b=2%;;;;");
}

#[test]
fn the_wording_for_okay_is_a_template() {
    let collect = vec![SnmpResult::new(vec![
        ("host".to_string(), ExprResult::StrVector(vec!["r1".to_string()])),
        ("many".to_string(), ExprResult::StrVector(vec!["a".to_string(), "b".to_string()])),
        ("none".to_string(), ExprResult::Empty),
        ("load".to_string(), vector(&[0.5])),
    ])];
    let metrics = vec![perf("a", 1.0, Some(Status::Okay))];
    let mut wording = Output::new();
    wording.ok = "{host} is fine, load {load}".to_string();
    let f = OutputFormatter::new(Status::Okay, &collect, &metrics, &wording);
    assert_eq!(f.to_string(), "r1 is fine, load 0.5 | a=1%;;;;");
    wording.ok = "{many} are fine".to_string();
    let f = OutputFormatter::new(Status::Okay, &collect, &metrics, &wording);
    assert_eq!(f.to_string(), "");
    wording.ok = "{none} is odd".to_string();
    let f = OutputFormatter::new(Status::Okay, &collect, &metrics, &wording);
    assert_eq!(f.to_string(), "{none} is odd | a=1%;;;;");
}

#[test]
fn execute_runs_and_reports() {
    let mut usage = metric("usage", "{disk} * 2");
    usage.warning = Some("5".to_string());
    usage.max = Some(num(10.0));
    let cmd = Command {
        collect: Collect { snmp: vec![] },
        compute: Compute { metrics: vec![usage], aggregations: Some(vec![metric("worst", "Max({metrics.usage})")]) },
        output: Output::new(),
    };
    let collect = vec![SnmpResult::new(vec![("disk".to_string(), vector(&[1.0, 2.0, 3.5]))])];
    let result = cmd.execute(collect, &vec![], &vec![]).unwrap();
    assert_eq!(result.status, Status::Warning);
    assert_eq!(
        result.output,
        "WARNING: 2#usage is 7B | 0#usage=2B;5;;;10 1#usage=4B;5;;;10 2#usage=7B;5;;;10 3#worst=7B;;;;"
    );
    assert!(cmd.execute(vec![], &vec!["[".to_string()], &vec![]).is_err());
}
