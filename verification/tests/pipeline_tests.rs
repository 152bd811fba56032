use metric_engine::ast::{EvalError, ExprResult};
use metric_engine::compute::{Compute, Metric};
use metric_engine::error::Error;
use metric_engine::generic::{Collect, Command, Query, QueryType, Snmp};
use metric_engine::number::Binary64;
use metric_engine::output::Output;
use metric_engine::parser::ParseError;
use metric_engine::snmp::SnmpResult;
use metric_engine::status::Status;

fn num(x: f64) -> Binary64 {
    Binary64::from_bits(x.to_bits())
}

fn val(b: Binary64) -> f64 {
    f64::from_bits(b.to_bits())
}

fn vector(xs: &[f64]) -> ExprResult {
    ExprResult::Vector(xs.iter().map(|x| num(*x)).collect())
}

fn strings(xs: &[&str]) -> ExprResult {
    ExprResult::StrVector(xs.iter().map(|s| s.to_string()).collect())
}

fn metric(name: &str, value: &str) -> Metric {
    Metric {
        name: name.to_string(),
        prefix: None,
        value: value.to_string(),
        uom: "%".to_string(),
        min_expr: None,
        min: None,
        max_expr: None,
        max: None,
        threshold_suffix: None,
        warning: None,
        critical: None,
    }
}

fn command(metrics: Vec<Metric>, aggregations: Option<Vec<Metric>>) -> Command {
    Command {
        collect: Collect { snmp: vec![] },
        compute: Compute { metrics, aggregations },
        output: Output::new(),
    }
}

fn collected() -> Vec<SnmpResult> {
    vec![SnmpResult::new(vec![
        ("cpu".to_string(), vector(&[10.0, 50.0, 95.0])),
        ("load".to_string(), vector(&[3.0])),
        ("disk".to_string(), vector(&[1.0, 2.0])),
        ("label".to_string(), strings(&["a-", "b-", "c-"])),
    ])]
}

fn names(report: &metric_engine::pipeline::Report) -> Vec<String> {
    report.metrics.iter().map(|m| m.name.clone()).collect()
}

#[test]
fn unlabeled_vector_gets_increasing_numbers_shared_by_all_metrics() {
    let cmd = command(
        vec![metric("first", "{cpu}"), metric("second", "{load}"), metric("third", "{disk}")],
        None,
    );
    let report = cmd.run(collected(), &vec![], &vec![]).unwrap();
    assert_eq!(
        names(&report),
        vec!["0#first", "1#first", "2#first", "3#second", "4#third", "5#third"]
    );
    assert_eq!(report.counter, 6);
    let values: Vec<f64> = report.metrics.iter().map(|m| val(m.value)).collect();
    assert_eq!(values, vec![10.0, 50.0, 95.0, 3.0, 1.0, 2.0]);
    assert_eq!(report.status, Status::Okay);
    assert!(report.diagnostics.is_empty());
}

#[test]
fn counter_runs_on_into_the_aggregations() {
    let cmd = command(
        vec![metric("first", "{cpu}")],
        Some(vec![metric("mean", "Average({metrics.first})"), metric("again", "{cpu}")]),
    );
    let report = cmd.run(collected(), &vec![], &vec![]).unwrap();
    assert_eq!(
        names(&report),
        vec!["0#first", "1#first", "2#first", "3#mean", "4#again", "5#again", "6#again"]
    );
    assert_eq!(val(report.metrics[3].value), (10.0 + 50.0 + 95.0) / 3.0);
    assert_eq!(report.counter, 7);
}

#[test]
fn labels_name_the_measurements_and_leave_the_counter_alone() {
    let mut labeled = metric("usage", "{cpu}");
    labeled.prefix = Some("{label}".to_string());
    let cmd = command(vec![labeled, metric("plain", "{load}")], None);
    let report = cmd.run(collected(), &vec![], &vec![]).unwrap();
    assert_eq!(names(&report), vec!["a-usage", "b-usage", "c-usage", "0#plain"]);
    assert_eq!(report.counter, 1);
}

#[test]
fn labels_of_the_wrong_length_are_not_used() {
    let mut labeled = metric("usage", "{disk}");
    labeled.prefix = Some("{label}".to_string());
    let mut literal = metric("other", "{disk}");
    literal.prefix = Some("just text".to_string());
    let cmd = command(vec![labeled, literal], None);
    let report = cmd.run(collected(), &vec![], &vec![]).unwrap();
    assert_eq!(names(&report), vec!["0#usage", "1#usage", "2#other", "3#other"]);
}

#[test]
fn thresholds_give_each_measurement_its_status_and_the_run_the_worst() {
    let mut m = metric("usage", "{cpu}");
    m.warning = Some("40".to_string());
    m.critical = Some("90".to_string());
    let cmd = command(vec![m], None);
    let report = cmd.run(collected(), &vec![], &vec![]).unwrap();
    let statuses: Vec<Option<Status>> = report.metrics.iter().map(|m| m.status).collect();
    assert_eq!(
        statuses,
        vec![Some(Status::Okay), Some(Status::Warning), Some(Status::Critical)]
    );
    assert_eq!(report.status, Status::Critical);
    assert_eq!(report.metrics[0].warning.as_deref(), Some("40"));
    assert_eq!(report.metrics[0].critical.as_deref(), Some("90"));
    assert_eq!(report.metrics[0].uom, "%");
}

#[test]
fn bounds_come_from_formulas_before_constants() {
    let mut m = metric("usage", "{cpu}");
    m.min = Some(num(0.0));
    m.max = Some(num(100.0));
    m.max_expr = Some("{cpu} * 2".to_string());
    let mut scalar = metric("one", "{load}");
    scalar.min_expr = Some("{disk}".to_string());
    let cmd = command(vec![m, scalar], None);
    let report = cmd.run(collected(), &vec![], &vec![]).unwrap();
    let mins: Vec<Option<f64>> = report.metrics.iter().map(|m| m.min.map(val)).collect();
    let maxs: Vec<Option<f64>> = report.metrics.iter().map(|m| m.max.map(val)).collect();
    assert_eq!(mins, vec![Some(0.0), Some(0.0), Some(0.0), Some(1.0)]);
    assert_eq!(maxs, vec![Some(20.0), Some(100.0), Some(190.0), None]);
}

#[test]
fn filters_keep_and_drop_by_name_but_numbers_are_still_used_up() {
    let cmd = command(vec![metric("first", "{cpu}"), metric("second", "{disk}")], None);
    let keep = vec!["^[0-2]#".to_string(), "second$".to_string()];
    let drop = vec!["^1#".to_string()];
    let report = cmd.run(collected(), &keep, &drop).unwrap();
    assert_eq!(names(&report), vec!["0#first", "2#first", "3#second", "4#second"]);
    assert_eq!(report.counter, 5);
    let report = cmd.run(collected(), &vec![], &vec!["first".to_string()]).unwrap();
    assert_eq!(names(&report), vec!["3#second", "4#second"]);
}

#[test]
fn a_filter_that_is_no_regular_expression_ends_the_run() {
    let cmd = command(vec![metric("first", "{cpu}")], None);
    let bad = vec!["ok".to_string(), "(".to_string()];
    let err = cmd.run(collected(), &bad, &vec![]).unwrap_err();
    assert_eq!(err, Error::Regex { pattern: "(".to_string() });
    let err = cmd.run(collected(), &vec![], &bad).unwrap_err();
    assert_eq!(err, Error::Regex { pattern: "(".to_string() });
    assert_eq!(err.message(), "Filter: not a regular expression: (");
}

#[test]
fn a_failing_metric_is_noted_and_the_run_goes_on() {
    let mut bad_threshold = metric("second", "{cpu}");
    bad_threshold.warning = Some("foobar".to_string());
    let cmd = command(
        vec![
            metric("first", "1 +"),
            bad_threshold,
            metric("third", "{label} + 1"),
            metric("fourth", "{load}"),
        ],
        None,
    );
    let report = cmd.run(collected(), &vec![], &vec![]).unwrap();
    assert_eq!(names(&report), vec!["0#fourth"]);
    assert_eq!(report.status, Status::Unknown);
    assert_eq!(report.diagnostics.len(), 3);
    assert_eq!(report.diagnostics[0].metric, "first");
    assert_eq!(report.diagnostics[0].error, Error::Parse { cause: ParseError::UnexpectedEnd });
    assert_eq!(report.diagnostics[1].metric, "second");
    assert_eq!(report.diagnostics[1].error, Error::BadThreshold);
    assert_eq!(report.diagnostics[2].metric, "third");
    assert_eq!(report.diagnostics[2].error, Error::Eval { reason: EvalError::TypeMismatch });
}

#[test]
fn values_are_published_for_later_metrics_only() {
    let cmd = command(
        vec![
            metric("early", "{metrics.late} + 1"),
            metric("late", "{load} * 2"),
            metric("after", "{metrics.late} + 1"),
        ],
        Some(vec![metric("sum", "{metrics.early} + {metrics.after}")]),
    );
    let report = cmd.run(collected(), &vec![], &vec![]).unwrap();
    let values: Vec<f64> = report.metrics.iter().map(|m| val(m.value)).collect();
    assert_eq!(values, vec![1.0, 6.0, 7.0, 8.0]);
    assert_eq!(report.collect.len(), 3);
    let published: Vec<&str> = report.collect[1].items.iter().map(|i| i.0.as_str()).collect();
    assert_eq!(published, vec!["metrics.early", "metrics.late", "metrics.after"]);
    let published: Vec<&str> = report.collect[2].items.iter().map(|i| i.0.as_str()).collect();
    assert_eq!(published, vec!["aggregations.sum"]);
    assert_eq!(report.collect[0].items.len(), 4);
}

#[test]
fn late_thresholds_go_to_the_first_metric_that_answers() {
    let mut a = metric("a", "{load}");
    a.threshold_suffix = Some("load".to_string());
    let mut b = metric("b", "{load}");
    b.threshold_suffix = Some("load".to_string());
    let mut c = metric("c", "{load}");
    c.threshold_suffix = Some("agg".to_string());
    let mut cmd = command(vec![a, b], Some(vec![c]));
    cmd.add_warning("load", "1".to_string());
    cmd.add_critical("agg", "2".to_string());
    cmd.add_critical("nobody", "3".to_string());
    assert_eq!(cmd.compute.metrics[0].warning.as_deref(), Some("1"));
    assert_eq!(cmd.compute.metrics[0].critical, None);
    assert_eq!(cmd.compute.metrics[1].warning, None);
    let aggregations = cmd.compute.aggregations.as_ref().unwrap();
    assert_eq!(aggregations[0].critical.as_deref(), Some("2"));
    assert_eq!(aggregations[0].warning, None);
    let report = cmd.run(collected(), &vec![], &vec![]).unwrap();
    let statuses: Vec<Option<Status>> = report.metrics.iter().map(|m| m.status).collect();
    assert_eq!(
        statuses,
        vec![Some(Status::Warning), Some(Status::Okay), Some(Status::Critical)]
    );
    assert_eq!(report.status, Status::Critical);
}

#[test]
fn requests_are_the_walks_in_order_and_then_one_get() {
    let snmp = vec![
        Snmp { name: "sys".to_string(), oid: "1.3.1".to_string(), query: QueryType::Get, labels: None },
        Snmp { name: "cpu".to_string(), oid: "1.3.2".to_string(), query: QueryType::Walk, labels: None },
        Snmp { name: "up".to_string(), oid: "1.3.3".to_string(), query: QueryType::Get, labels: None },
        Snmp {
            name: "disk".to_string(),
            oid: "1.3.4".to_string(),
            query: QueryType::Walk,
            labels: Some(vec![("1".to_string(), "free".to_string())]),
        },
    ];
    let cmd = Command {
        collect: Collect { snmp },
        compute: Compute { metrics: vec![], aggregations: None },
        output: Output::new(),
    };
    let queries = cmd.queries();
    assert_eq!(queries.len(), 3);
    match &queries[0] {
        Query::Walk { oid, name } => {
            assert_eq!(oid, "1.3.2");
            assert_eq!(name, "cpu");
        }
        _ => panic!("expected a walk"),
    }
    match &queries[1] {
        Query::WalkWithLabels { oid, name, labels } => {
            assert_eq!(oid, "1.3.4");
            assert_eq!(name, "disk");
            assert_eq!(labels, &vec![("1".to_string(), "free".to_string())]);
        }
        _ => panic!("expected a walk with labels"),
    }
    match &queries[2] {
        Query::BulkGet { oids, names } => {
            assert_eq!(oids, &vec!["1.3.1".to_string(), "1.3.3".to_string()]);
            assert_eq!(names, &vec!["sys".to_string(), "up".to_string()]);
        }
        _ => panic!("expected a get"),
    }
    let none = command(vec![], None);
    assert!(none.queries().is_empty());
}

#[test]
fn numbers_for_unlabeled_measurements_can_run_out() {
    let collect = collected();
    let m = metric("first", "{cpu}");
    let ok = metric_engine::pipeline::evaluate(&m, &collect, u64::MAX - 3, &vec![], &vec![]).unwrap();
    assert_eq!(ok.counter, u64::MAX);
    assert_eq!(ok.perfdata[2].name, format!("{}#first", u64::MAX - 1));
    let err = metric_engine::pipeline::evaluate(&m, &collect, u64::MAX - 2, &vec![], &vec![]);
    assert_eq!(err.unwrap_err(), Error::CounterOverflow);
    let mut labeled = metric("usage", "{cpu}");
    labeled.prefix = Some("{label}".to_string());
    let ok = metric_engine::pipeline::evaluate(&labeled, &collect, u64::MAX, &vec![], &vec![]).unwrap();
    assert_eq!(ok.counter, u64::MAX);
}

#[test]
fn every_error_has_its_message() {
    let cases = [
        (Error::BadThreshold, "Threshold: The threshold syntax must follow '[@]start:end'"),
        (
            Error::NegativeSimpleThreshold { value: num(-0.5) },
            "Threshold: This syntax is a shortcut of '0:-0.5', so -0.5 must be greater than 0.",
        ),
        (
            Error::BadThresholdRange { start: num(2.25), end: num(1.0) },
            "Threshold: The start value 2.25 must be less than the end value 1",
        ),
        (Error::Regex { pattern: "a(".to_string() }, "Filter: not a regular expression: a("),
        (Error::Parse { cause: ParseError::UnexpectedEnd }, "Formula: the text ends too early"),
        (
            Error::Parse { cause: ParseError::UnexpectedToken { start: 0, end: 1 } },
            "Formula: a token out of place",
        ),
        (
            Error::Parse { cause: ParseError::TrailingInput { start: 0, end: 1 } },
            "Formula: text behind the formula",
        ),
        (
            Error::Parse { cause: ParseError::Lexical(metric_engine::lexer::LexicalError::NotPossible) },
            "Formula: a character that belongs to no token",
        ),
        (Error::Eval { reason: EvalError::TypeMismatch }, "Evaluation: a value of the wrong kind"),
        (Error::Eval { reason: EvalError::UnknownMetric }, "Evaluation: a name that nothing holds"),
        (Error::CounterOverflow, "Too many measurements without a label"),
    ];
    for (error, text) in cases {
        assert_eq!(error.message(), text);
    }
}
