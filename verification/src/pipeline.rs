//! From the definitions of metrics and the collected values to named
//! measurements and an overall status.
//!
//! Metrics are taken in the order in which they are defined. Each one is
//! evaluated against everything collected and everything published before
//! it; its own value is then published under `metrics.` and its name, or
//! under `aggregations.` and its name in the second pass. A metric that
//! fails leaves nothing behind but a note of the failure, and counts as
//! `Unknown`.

use crate::ast::{copy_numbers, texts, EvalError, ExprResult, Value};
use crate::compute::{eval_str_text, eval_text, gives, Metric, Parser};
use crate::decimal::{decimal_text, digits_of, lemma_digits_text};
use crate::error::Error;
use crate::filter::{find_invalid, first_invalid, kept, passes};
use crate::format::push_digits;
use crate::generic::{compute_status, status_of, text_of, Command, Perfdata};
use crate::number::Binary64;
use crate::snmp::{
    find_result, has_key, inserted, lemma_find_result, lemma_inserted, lookup, name_bytes,
    namespaces, Names, SnmpResult,
};
use crate::status::{severity, worse_of, worst, Status};
use crate::template::concat;
use vstd::prelude::*;
use vstd::string::StringExecFns;

verus! {

/// A measurement as mathematics.
pub struct PerfView {
    pub name: Seq<char>,
    pub value: Binary64,
    pub uom: Seq<char>,
    pub min: Option<Binary64>,
    pub max: Option<Binary64>,
    pub warning: Option<Seq<char>>,
    pub critical: Option<Seq<char>>,
    pub status: Option<Status>,
}

impl View for Perfdata {
    type V = PerfView;

    open spec fn view(&self) -> PerfView {
        PerfView {
            name: self.name@,
            value: self.value,
            uom: self.uom@,
            min: self.min,
            max: self.max,
            warning: text_of(self.warning),
            critical: text_of(self.critical),
            status: self.status,
        }
    }
}

/// A list of measurements as mathematics.
pub open spec fn perf_views(v: Seq<Perfdata>) -> Seq<PerfView> {
    Seq::new(v.len(), |i: int| v[i]@)
}

/// A bound of a metric: the value of its formula where it has one, else
/// its constant where it has one, else nothing.
pub open spec fn bound_value(
    formula: Option<String>,
    constant: Option<Binary64>,
    collect: Seq<Names>,
) -> Result<Value, Error> {
    match formula {
        Some(f) => eval_text(name_bytes(f@), collect),
        None => match constant {
            Some(c) => Ok(Value::Number(c)),
            None => Ok(Value::Empty),
        },
    }
}

/// The bound of the measurement at `i`: a number bounds every measurement,
/// a vector bounds each by its own entry.
pub open spec fn bound_at(bound: Value, i: int) -> Option<Binary64> {
    match bound {
        Value::Number(n) => Some(n),
        Value::Vector(v) => if 0 <= i < v.len() {
            Some(v[i])
        } else {
            None
        },
        _ => None,
    }
}

/// The numbers that a metric's value consists of: one for a number, the
/// entries of a vector. A value of another kind is none.
pub open spec fn elements(v: Value) -> Option<Seq<Binary64>> {
    match v {
        Value::Number(n) => Some(seq![n]),
        Value::Vector(x) => Some(x),
        _ => None,
    }
}

/// The labels of a metric's measurements: what its prefix evaluates to,
/// where that is a list of as many texts as there are measurements.
pub open spec fn labels_of(prefix: Option<String>, collect: Seq<Names>, n: nat) -> Result<
    Option<Seq<Seq<char>>>,
    Error,
> {
    match prefix {
        None => Ok(None),
        Some(p) => match eval_str_text(p@, collect) {
            Err(e) => Err(e),
            Ok(Value::StrVector(l)) => if l.len() == n {
                Ok(Some(l))
            } else {
                Ok(None)
            },
            Ok(_) => Ok(None),
        },
    }
}

/// The name of a measurement without a label: a number, `#`, the metric's
/// name.
pub open spec fn numbered_name(number: nat, metric: Seq<char>) -> Seq<char> {
    decimal_text(number) + seq!['#'] + metric
}

/// The name of the measurement at `i`: its label followed by the metric's
/// name, or a numbered name, the numbers going up from `counter`.
pub open spec fn element_name(
    labels: Option<Seq<Seq<char>>>,
    metric: Seq<char>,
    counter: nat,
    i: int,
) -> Seq<char> {
    match labels {
        Some(l) => l[i] + metric,
        None => numbered_name((counter + i) as nat, metric),
    }
}

/// The measurement of one number of a metric.
pub open spec fn measure(m: Metric, name: Seq<char>, value: Binary64, min: Value, max: Value, i: int) -> Result<
    PerfView,
    Error,
> {
    match status_of(value, text_of(m.warning), text_of(m.critical)) {
        Err(e) => Err(e),
        Ok(st) => Ok(
            PerfView {
                name,
                value,
                uom: m.uom@,
                min: bound_at(min, i),
                max: bound_at(max, i),
                warning: text_of(m.warning),
                critical: text_of(m.critical),
                status: Some(st),
            },
        ),
    }
}

/// The measurements of the first `upto` numbers of a metric: one for each
/// number whose name passes the filters, in order; the first error where a
/// threshold cannot be read.
pub open spec fn measure_all(
    m: Metric,
    values: Seq<Binary64>,
    labels: Option<Seq<Seq<char>>>,
    counter: nat,
    min: Value,
    max: Value,
    filter_in: Seq<String>,
    filter_out: Seq<String>,
    upto: int,
) -> Result<Seq<PerfView>, Error>
    decreases upto,
{
    if upto <= 0 {
        Ok(Seq::<PerfView>::empty())
    } else {
        match measure_all(m, values, labels, counter, min, max, filter_in, filter_out, upto - 1) {
            Err(e) => Err(e),
            Ok(done) => {
                let i = upto - 1;
                let name = element_name(labels, m.name@, counter, i);
                if !kept(name, filter_in, filter_out) {
                    Ok(done)
                } else {
                    match measure(m, name, values[i], min, max, i) {
                        Err(e) => Err(e),
                        Ok(p) => Ok(done.push(p)),
                    }
                }
            },
        }
    }
}

/// What a metric gives where it succeeds.
pub struct MetricOutcome {
    pub perfdata: Seq<PerfView>,
    /// The number that the next unlabeled measurement gets.
    pub counter: nat,
    /// The metric's value, to be published.
    pub value: Value,
}

/// One metric evaluated: its value, its bounds, its labels, and from them
/// its measurements. Unlabeled measurements take their numbers from
/// `counter` on.
pub open spec fn evaluate_metric(
    m: Metric,
    collect: Seq<Names>,
    counter: nat,
    filter_in: Seq<String>,
    filter_out: Seq<String>,
) -> Result<MetricOutcome, Error> {
    match eval_text(name_bytes(m.value@), collect) {
        Err(e) => Err(e),
        Ok(v) => match elements(v) {
            None => Err(Error::Eval { reason: EvalError::TypeMismatch }),
            Some(values) => match bound_value(m.min_expr, m.min, collect) {
                Err(e) => Err(e),
                Ok(min) => match bound_value(m.max_expr, m.max, collect) {
                    Err(e) => Err(e),
                    Ok(max) => match labels_of(m.prefix, collect, values.len()) {
                        Err(e) => Err(e),
                        Ok(labels) => if labels is None && counter + values.len() > u64::MAX {
                            Err(Error::CounterOverflow)
                        } else {
                            match measure_all(
                                m,
                                values,
                                labels,
                                counter,
                                min,
                                max,
                                filter_in,
                                filter_out,
                                values.len() as int,
                            ) {
                                Err(e) => Err(e),
                                Ok(perfdata) => Ok(
                                    MetricOutcome {
                                        perfdata,
                                        counter: if labels is None {
                                            counter + values.len()
                                        } else {
                                            counter
                                        },
                                        value: v,
                                    },
                                ),
                            }
                        },
                    },
                },
            },
        },
    }
}

/// A copy of an optional string.
pub fn copy_option(s: &Option<String>) -> (r: Option<String>)
    ensures
        r == *s,
{
    match s {
        Some(t) => Some(t.clone()),
        None => None,
    }
}

/// A bound of a metric.
pub fn eval_bound(parser: &Parser, formula: &Option<String>, constant: &Option<Binary64>) -> (r: Result<
    ExprResult,
    Error,
>)
    ensures
        gives(r, bound_value(*formula, *constant, namespaces(parser.collection()))),
{
    match formula {
        Some(f) => parser.eval(f.as_str()),
        None => match constant {
            Some(c) => Ok(ExprResult::Number(*c)),
            None => Ok(ExprResult::Empty),
        },
    }
}

/// The bound of the measurement at `i`.
pub fn bound_of(bound: &ExprResult, i: usize) -> (r: Option<Binary64>)
    ensures
        r == bound_at(bound@, i as int),
{
    match bound {
        ExprResult::Number(n) => Some(*n),
        ExprResult::Vector(v) => if i < v.len() {
            Some(v[i])
        } else {
            None
        },
        _ => None,
    }
}

/// The name of a measurement without a label.
pub fn make_numbered_name(number: u64, metric: &String) -> (r: String)
    ensures
        r@ == numbered_name(number as nat, metric@),
{
    let digits = digits_of(number);
    let mut out = String::new();
    push_digits(&mut out, &digits);
    proof {
        lemma_digits_text(digits@);
        reveal_strlit("#");
    }
    out.append("#");
    out.append(metric.as_str());
    assert(out@ =~= numbered_name(number as nat, metric@));
    out
}

/// The texts of an optional list of labels.
pub open spec fn label_texts(labels: Option<Vec<String>>) -> Option<Seq<Seq<char>>> {
    match labels {
        Some(l) => Some(texts(l@)),
        None => None,
    }
}

/// The labels of a metric's measurements.
pub fn eval_labels(parser: &Parser, prefix: &Option<String>, n: usize) -> (r: Result<
    Option<Vec<String>>,
    Error,
>)
    ensures
        match labels_of(*prefix, namespaces(parser.collection()), n as nat) {
            Err(e) => r is Err && r->Err_0 == e,
            Ok(l) => r is Ok && label_texts(r->Ok_0) == l,
        },
        r is Ok && r->Ok_0 is Some ==> r->Ok_0->0@.len() == n,
{
    match prefix {
        None => Ok(None),
        Some(p) => match parser.eval_str(p.as_str()) {
            Err(e) => Err(e),
            Ok(ExprResult::StrVector(l)) => if l.len() == n {
                Ok(Some(l))
            } else {
                Ok(None)
            },
            Ok(_) => Ok(None),
        },
    }
}

/// The name of the measurement at `i`.
fn make_name(labels: &Option<Vec<String>>, metric: &String, counter: u64, i: usize) -> (r: String)
    requires
        labels is Some ==> i < labels->0@.len(),
        labels is None ==> counter + i <= u64::MAX,
    ensures
        r@ == element_name(label_texts(*labels), metric@, counter as nat, i as int),
{
    match labels {
        Some(l) => concat(&l[i], metric),
        None => make_numbered_name(counter + (i as u64), metric),
    }
}

/// The measurements of a metric's numbers.
fn measure_elements(
    m: &Metric,
    values: &Vec<Binary64>,
    labels: &Option<Vec<String>>,
    counter: u64,
    min: &ExprResult,
    max: &ExprResult,
    filter_in: &Vec<String>,
    filter_out: &Vec<String>,
) -> (r: Result<Vec<Perfdata>, Error>)
    requires
        labels is Some ==> labels->0@.len() == values@.len(),
        labels is None ==> counter + values@.len() <= u64::MAX,
    ensures
        match measure_all(
            *m,
            values@,
            label_texts(*labels),
            counter as nat,
            min@,
            max@,
            filter_in@,
            filter_out@,
            values@.len() as int,
        ) {
            Err(e) => r is Err && r->Err_0 == e,
            Ok(p) => r is Ok && perf_views(r->Ok_0@) == p,
        },
{
    let mut out: Vec<Perfdata> = Vec::new();
    let mut i: usize = 0;
    assert(perf_views(out@) =~= Seq::<PerfView>::empty());
    while i < values.len()
        invariant
            i <= values.len(),
            labels is Some ==> labels->0@.len() == values@.len(),
            labels is None ==> counter + values@.len() <= u64::MAX,
            measure_all(
                *m,
                values@,
                label_texts(*labels),
                counter as nat,
                min@,
                max@,
                filter_in@,
                filter_out@,
                i as int,
            ) == Ok::<Seq<PerfView>, Error>(perf_views(out@)),
        decreases values.len() - i,
    {
        let name = make_name(labels, &m.name, counter, i);
        if passes(name.as_str(), filter_in, filter_out) {
            match compute_status(&values[i], &m.warning, &m.critical) {
                Err(e) => {
                    proof {
                        lemma_measure_fails(
                            *m,
                            values@,
                            label_texts(*labels),
                            counter as nat,
                            min@,
                            max@,
                            filter_in@,
                            filter_out@,
                            i + 1,
                            values@.len() as int,
                        );
                    }
                    return Err(e);
                },
                Ok(status) => {
                    let p = Perfdata {
                        name,
                        value: values[i],
                        uom: m.uom.clone(),
                        min: bound_of(min, i),
                        max: bound_of(max, i),
                        warning: copy_option(&m.warning),
                        critical: copy_option(&m.critical),
                        status: Some(status),
                    };
                    let ghost before = perf_views(out@);
                    out.push(p);
                    assert(perf_views(out@) =~= before.push(p@));
                },
            }
        }
        i = i + 1;
    }
    Ok(out)
}

/// A failure among the first numbers is the failure of all.
proof fn lemma_measure_fails(
    m: Metric,
    values: Seq<Binary64>,
    labels: Option<Seq<Seq<char>>>,
    counter: nat,
    min: Value,
    max: Value,
    filter_in: Seq<String>,
    filter_out: Seq<String>,
    at: int,
    upto: int,
)
    requires
        at <= upto,
        measure_all(m, values, labels, counter, min, max, filter_in, filter_out, at) is Err,
    ensures
        measure_all(m, values, labels, counter, min, max, filter_in, filter_out, upto)
            == measure_all(m, values, labels, counter, min, max, filter_in, filter_out, at),
    decreases upto - at,
{
    if at < upto {
        lemma_measure_fails(m, values, labels, counter, min, max, filter_in, filter_out, at, upto - 1);
    }
}

/// What a metric gives where it succeeds.
#[derive(Debug)]
pub struct Evaluated {
    pub perfdata: Vec<Perfdata>,
    pub counter: u64,
    pub value: ExprResult,
}

/// Whether a computed result is the one that is wanted: the same error, or
/// a value with the wanted view.
pub open spec fn evaluated_as(r: Result<Evaluated, Error>, want: Result<MetricOutcome, Error>) -> bool {
    match want {
        Err(e) => r is Err && r->Err_0 == e,
        Ok(o) => r is Ok && perf_views(r->Ok_0.perfdata@) == o.perfdata && r->Ok_0.counter
            == o.counter && r->Ok_0.value@ == o.value,
    }
}

/// Evaluates one metric against a collection.
pub fn evaluate(
    m: &Metric,
    collect: &Vec<SnmpResult>,
    counter: u64,
    filter_in: &Vec<String>,
    filter_out: &Vec<String>,
) -> (r: Result<Evaluated, Error>)
    ensures
        evaluated_as(
            r,
            evaluate_metric(*m, namespaces(collect@), counter as nat, filter_in@, filter_out@),
        ),
{
    let parser = Parser::new(collect);
    let value = parser.eval(m.value.as_str())?;
    let values = match &value {
        ExprResult::Number(n) => {
            let mut one: Vec<Binary64> = Vec::new();
            one.push(*n);
            assert(one@ =~= seq![*n]);
            one
        },
        ExprResult::Vector(v) => copy_numbers(v),
        _ => {
            return Err(Error::Eval { reason: EvalError::TypeMismatch });
        },
    };
    let min = eval_bound(&parser, &m.min_expr, &m.min)?;
    let max = eval_bound(&parser, &m.max_expr, &m.max)?;
    let labels = eval_labels(&parser, &m.prefix, values.len())?;
    let next: u64 = match &labels {
        Some(_) => counter,
        None => {
            if values.len() as u64 > u64::MAX - counter {
                return Err(Error::CounterOverflow);
            }
            counter + values.len() as u64
        },
    };
    let perfdata = measure_elements(m, &values, &labels, counter, &min, &max, filter_in, filter_out)?;
    Ok(Evaluated { perfdata, counter: next, value })
}

/// A note of a metric that failed.
#[derive(Debug)]
pub struct Diagnostic {
    pub metric: String,
    pub error: Error,
}

/// What a run has produced.
#[derive(Debug)]
pub struct Report {
    /// The worst status of all measurements and failures.
    pub status: Status,
    /// What was collected, followed by what each pass published.
    pub collect: Vec<SnmpResult>,
    pub metrics: Vec<Perfdata>,
    pub diagnostics: Vec<Diagnostic>,
    /// The number that the next unlabeled measurement would get.
    pub counter: u64,
}

/// A run as mathematics.
pub struct RunState {
    pub status: Status,
    pub collect: Seq<Names>,
    pub metrics: Seq<PerfView>,
    pub diagnostics: Seq<(Seq<char>, Error)>,
    pub counter: nat,
}

impl View for Report {
    type V = RunState;

    open spec fn view(&self) -> RunState {
        RunState {
            status: self.status,
            collect: namespaces(self.collect@),
            metrics: perf_views(self.metrics@),
            diagnostics: Seq::new(
                self.diagnostics@.len(),
                |i: int| (self.diagnostics@[i].metric@, self.diagnostics@[i].error),
            ),
            counter: self.counter as nat,
        }
    }
}

/// The status of a measurement; `Unknown` for one without a status.
pub open spec fn status_in(p: PerfView) -> Status {
    match p.status {
        Some(s) => s,
        None => Status::Unknown,
    }
}

/// The worst status of a start and of a list of measurements.
pub open spec fn worst_among(start: Status, p: Seq<PerfView>) -> Status
    decreases p.len(),
{
    if p.len() == 0 {
        start
    } else {
        worse_of(worst_among(start, p.drop_last()), status_in(p.last()))
    }
}

/// A run after one more metric. Where the metric succeeds, its
/// measurements are added, their statuses are taken into the overall
/// status, and its value is published under `key_prefix` and its name in
/// the last list of the collection. Where it fails, the failure is noted,
/// the overall status is at least `Unknown`, and nothing else changes.
pub open spec fn after_metric(
    st: RunState,
    m: Metric,
    key_prefix: Seq<char>,
    filter_in: Seq<String>,
    filter_out: Seq<String>,
) -> RunState {
    match evaluate_metric(m, st.collect, st.counter, filter_in, filter_out) {
        Err(e) => RunState {
            status: worse_of(st.status, Status::Unknown),
            diagnostics: st.diagnostics.push((m.name@, e)),
            ..st
        },
        Ok(o) => RunState {
            status: worst_among(st.status, o.perfdata),
            collect: if st.collect.len() > 0 {
                st.collect.update(
                    st.collect.len() - 1,
                    inserted(st.collect.last(), key_prefix + m.name@, o.value),
                )
            } else {
                st.collect
            },
            metrics: st.metrics + o.perfdata,
            diagnostics: st.diagnostics,
            counter: o.counter,
        },
    }
}

/// A run after the first `upto` metrics of a list, taken in order.
pub open spec fn after_metrics(
    st: RunState,
    ms: Seq<Metric>,
    key_prefix: Seq<char>,
    filter_in: Seq<String>,
    filter_out: Seq<String>,
    upto: int,
) -> RunState
    decreases upto,
{
    if upto <= 0 {
        st
    } else {
        after_metric(
            after_metrics(st, ms, key_prefix, filter_in, filter_out, upto - 1),
            ms[upto - 1],
            key_prefix,
            filter_in,
            filter_out,
        )
    }
}

/// A run after one pass: a new, empty list is added to the collection, and
/// the metrics publish into it one after the other.
pub open spec fn after_pass(
    st: RunState,
    ms: Seq<Metric>,
    key_prefix: Seq<char>,
    filter_in: Seq<String>,
    filter_out: Seq<String>,
) -> RunState {
    after_metrics(
        RunState { collect: st.collect.push(Seq::<(Seq<char>, Value)>::empty()), ..st },
        ms,
        key_prefix,
        filter_in,
        filter_out,
        ms.len() as int,
    )
}

/// The state in which a run starts.
pub open spec fn start_of_run(collect: Seq<Names>) -> RunState {
    RunState {
        status: Status::Okay,
        collect,
        metrics: Seq::<PerfView>::empty(),
        diagnostics: Seq::<(Seq<char>, Error)>::empty(),
        counter: 0,
    }
}

/// A whole run: the filters are checked, then the metrics are taken, then
/// the aggregations where there are any.
pub open spec fn run_of(
    cmd: Command,
    collect: Seq<Names>,
    filter_in: Seq<String>,
    filter_out: Seq<String>,
) -> Result<RunState, Error> {
    if first_invalid(filter_in, 0) < filter_in.len() {
        Err(Error::Regex { pattern: filter_in[first_invalid(filter_in, 0)] })
    } else if first_invalid(filter_out, 0) < filter_out.len() {
        Err(Error::Regex { pattern: filter_out[first_invalid(filter_out, 0)] })
    } else {
        let base = after_pass(
            start_of_run(collect),
            cmd.compute.metrics@,
            "metrics."@,
            filter_in,
            filter_out,
        );
        match cmd.compute.aggregations {
            None => Ok(base),
            Some(a) => Ok(after_pass(base, a@, "aggregations."@, filter_in, filter_out)),
        }
    }
}

/// The worst status of a start and of a list of measurements.
pub fn worst_status(start: Status, p: &Vec<Perfdata>) -> (r: Status)
    ensures
        r == worst_among(start, perf_views(p@)),
{
    let mut status = start;
    let mut i: usize = 0;
    while i < p.len()
        invariant
            i <= p.len(),
            status == worst_among(start, perf_views(p@).take(i as int)),
        decreases p.len() - i,
    {
        assert(perf_views(p@).take(i + 1).drop_last() =~= perf_views(p@).take(i as int));
        let current = match p[i].status {
            Some(s) => s,
            None => Status::Unknown,
        };
        status = worst(status, current);
        i = i + 1;
    }
    assert(perf_views(p@).take(p.len() as int) =~= perf_views(p@));
    status
}

impl Report {
    /// Takes one more metric into the run.
    pub fn take_metric(
        &mut self,
        m: &Metric,
        key_prefix: &str,
        filter_in: &Vec<String>,
        filter_out: &Vec<String>,
    )
        ensures
            final(self)@ == after_metric(old(self)@, *m, key_prefix@, filter_in@, filter_out@),
    {
        match evaluate(m, &self.collect, self.counter, filter_in, filter_out) {
            Err(e) => {
                self.status = worst(self.status, Status::Unknown);
                self.diagnostics.push(Diagnostic { metric: m.name.clone(), error: e });
                assert(self@.diagnostics =~= old(self)@.diagnostics.push((m.name@, e)));
            },
            Ok(ev) => {
                let Evaluated { perfdata, counter, value } = ev;
                self.status = worst_status(self.status, &perfdata);
                let mut perfdata = perfdata;
                let ghost added = perf_views(perfdata@);
                self.metrics.append(&mut perfdata);
                assert(perf_views(self.metrics@) =~= old(self)@.metrics + added);
                self.counter = counter;
                let mut key = String::from_str(key_prefix);
                key.append(m.name.as_str());
                match self.collect.pop() {
                    Some(last) => {
                        let mut last = last;
                        last.insert(key, value);
                        self.collect.push(last);
                        assert(namespaces(self.collect@) =~= old(self)@.collect.update(
                            old(self)@.collect.len() - 1,
                            inserted(old(self)@.collect.last(), key_prefix@ + m.name@, value@),
                        ));
                    },
                    None => {
                        assert(namespaces(self.collect@) =~= old(self)@.collect);
                    },
                }
            },
        }
    }

    /// Takes a list of metrics into the run as one pass.
    pub fn take_pass(
        &mut self,
        ms: &Vec<Metric>,
        key_prefix: &str,
        filter_in: &Vec<String>,
        filter_out: &Vec<String>,
    )
        ensures
            final(self)@ == after_pass(old(self)@, ms@, key_prefix@, filter_in@, filter_out@),
    {
        let fresh = SnmpResult::new(Vec::new());
        assert(fresh@ =~= Seq::<(Seq<char>, Value)>::empty());
        self.collect.push(fresh);
        let ghost begun = self@;
        assert(begun.collect =~= old(self)@.collect.push(Seq::<(Seq<char>, Value)>::empty()));
        let mut i: usize = 0;
        while i < ms.len()
            invariant
                i <= ms.len(),
                self@ == after_metrics(begun, ms@, key_prefix@, filter_in@, filter_out@, i as int),
            decreases ms.len() - i,
        {
            self.take_metric(&ms[i], key_prefix, filter_in, filter_out);
            i = i + 1;
        }
    }
}

impl Command {
    /// Runs the configured metrics, then the aggregations, against what was
    /// collected.
    pub fn run(&self, collect: Vec<SnmpResult>, filter_in: &Vec<String>, filter_out: &Vec<String>) -> (r:
        Result<Report, Error>)
        ensures
            match run_of(*self, namespaces(collect@), filter_in@, filter_out@) {
                Err(e) => r is Err && r->Err_0 == e,
                Ok(st) => r is Ok && r->Ok_0@ == st,
            },
    {
        if let Some(i) = find_invalid(filter_in) {
            return Err(Error::Regex { pattern: filter_in[i].clone() });
        }
        if let Some(i) = find_invalid(filter_out) {
            return Err(Error::Regex { pattern: filter_out[i].clone() });
        }
        let mut report = Report {
            status: Status::Okay,
            collect,
            metrics: Vec::new(),
            diagnostics: Vec::new(),
            counter: 0,
        };
        assert(report@.metrics =~= Seq::<PerfView>::empty());
        assert(report@.diagnostics =~= Seq::<(Seq<char>, Error)>::empty());
        report.take_pass(&self.compute.metrics, "metrics.", filter_in, filter_out);
        match &self.compute.aggregations {
            None => {},
            Some(a) => {
                report.take_pass(a, "aggregations.", filter_in, filter_out);
            },
        }
        Ok(report)
    }
}

/// The measurements of a metric's first numbers, where nothing filters:
/// there is one for each number, and the one at `i` has the name of the
/// number at `i`.
pub proof fn lemma_measure_all_unfiltered(
    m: Metric,
    values: Seq<Binary64>,
    labels: Option<Seq<Seq<char>>>,
    counter: nat,
    min: Value,
    max: Value,
    filter_in: Seq<String>,
    filter_out: Seq<String>,
    upto: int,
)
    requires
        0 <= upto <= values.len(),
        filter_in.len() == 0,
        filter_out.len() == 0,
        measure_all(m, values, labels, counter, min, max, filter_in, filter_out, upto) is Ok,
    ensures
        measure_all(m, values, labels, counter, min, max, filter_in, filter_out, upto)->Ok_0.len()
            == upto,
        forall|i: int|
            0 <= i < upto ==> (#[trigger] measure_all(
                m,
                values,
                labels,
                counter,
                min,
                max,
                filter_in,
                filter_out,
                upto,
            )->Ok_0[i]).name == element_name(labels, m.name@, counter, i),
        forall|i: int|
            0 <= i < upto ==> (#[trigger] measure_all(
                m,
                values,
                labels,
                counter,
                min,
                max,
                filter_in,
                filter_out,
                upto,
            )->Ok_0[i]).value == values[i],
    decreases upto,
{
    if upto > 0 {
        lemma_measure_all_unfiltered(
            m,
            values,
            labels,
            counter,
            min,
            max,
            filter_in,
            filter_out,
            upto - 1,
        );
    }
}

/// A metric without labels, where nothing filters, gives one measurement
/// for each of its numbers; their names carry the numbers `counter`,
/// `counter + 1` and so on, each greater than the one before, and the next
/// metric goes on from where this one stopped.
pub proof fn lemma_unlabeled_metric(
    m: Metric,
    collect: Seq<Names>,
    counter: nat,
    filter_in: Seq<String>,
    filter_out: Seq<String>,
)
    requires
        m.prefix is None,
        filter_in.len() == 0,
        filter_out.len() == 0,
        evaluate_metric(m, collect, counter, filter_in, filter_out) is Ok,
    ensures
        ({
            let o = evaluate_metric(m, collect, counter, filter_in, filter_out)->Ok_0;
            let values = elements(o.value)->0;
            &&& elements(o.value) is Some
            &&& o.perfdata.len() == values.len()
            &&& o.counter == counter + values.len()
            &&& forall|i: int|
                0 <= i < values.len() ==> (#[trigger] o.perfdata[i]).name == numbered_name(
                    (counter + i) as nat,
                    m.name@,
                )
            &&& forall|i: int| 0 <= i < values.len() ==> (#[trigger] o.perfdata[i]).value == values[i]
        }),
{
    let v = eval_text(name_bytes(m.value@), collect)->Ok_0;
    let values = elements(v)->0;
    let min = bound_value(m.min_expr, m.min, collect)->Ok_0;
    let max = bound_value(m.max_expr, m.max, collect)->Ok_0;
    lemma_measure_all_unfiltered(
        m,
        values,
        None,
        counter,
        min,
        max,
        filter_in,
        filter_out,
        values.len() as int,
    );
}

/// The worst status among measurements is never better than the start.
pub proof fn lemma_worst_among(start: Status, p: Seq<PerfView>)
    ensures
        severity(worst_among(start, p)) >= severity(start),
        forall|i: int| 0 <= i < p.len() ==> severity(worst_among(start, p)) >= severity(status_in(#[trigger] p[i])),
    decreases p.len(),
{
    if p.len() > 0 {
        lemma_worst_among(start, p.drop_last());
        assert forall|i: int| 0 <= i < p.len() implies severity(worst_among(start, p))
            >= severity(status_in(#[trigger] p[i])) by {
            if i < p.len() - 1 {
                assert(p.drop_last()[i] == p[i]);
            }
        }
    }
}

/// One more metric never takes anything back: the counter does not fall,
/// the status does not get better, the measurements and the notes made so
/// far stay in front, and of the collection only the last list can change.
pub proof fn lemma_after_metric_keeps(
    st: RunState,
    m: Metric,
    key_prefix: Seq<char>,
    filter_in: Seq<String>,
    filter_out: Seq<String>,
)
    ensures
        ({
            let after = after_metric(st, m, key_prefix, filter_in, filter_out);
            &&& after.counter >= st.counter
            &&& severity(after.status) >= severity(st.status)
            &&& after.metrics.len() >= st.metrics.len()
            &&& after.metrics.take(st.metrics.len() as int) == st.metrics
            &&& after.diagnostics.len() >= st.diagnostics.len()
            &&& after.diagnostics.take(st.diagnostics.len() as int) == st.diagnostics
            &&& after.collect.len() == st.collect.len()
            &&& forall|j: int| 0 <= j < st.collect.len() - 1 ==> after.collect[j] == st.collect[j]
        }),
{
    let after = after_metric(st, m, key_prefix, filter_in, filter_out);
    match evaluate_metric(m, st.collect, st.counter, filter_in, filter_out) {
        Err(e) => {
            assert(after.diagnostics.take(st.diagnostics.len() as int) =~= st.diagnostics);
            assert(after.metrics.take(st.metrics.len() as int) =~= st.metrics);
        },
        Ok(o) => {
            lemma_worst_among(st.status, o.perfdata);
            assert(after.metrics.take(st.metrics.len() as int) =~= st.metrics);
            assert(after.diagnostics.take(st.diagnostics.len() as int) =~= st.diagnostics);
        },
    }
}

/// A pass never takes anything back either, and adds exactly one list to
/// the collection: every list that was there before is there unchanged.
pub proof fn lemma_after_metrics_keeps(
    st: RunState,
    ms: Seq<Metric>,
    key_prefix: Seq<char>,
    filter_in: Seq<String>,
    filter_out: Seq<String>,
    upto: int,
)
    requires
        upto <= ms.len(),
    ensures
        ({
            let after = after_metrics(st, ms, key_prefix, filter_in, filter_out, upto);
            &&& after.counter >= st.counter
            &&& severity(after.status) >= severity(st.status)
            &&& after.metrics.len() >= st.metrics.len()
            &&& after.metrics.take(st.metrics.len() as int) == st.metrics
            &&& after.diagnostics.len() >= st.diagnostics.len()
            &&& after.diagnostics.take(st.diagnostics.len() as int) == st.diagnostics
            &&& after.collect.len() == st.collect.len()
            &&& forall|j: int| 0 <= j < st.collect.len() - 1 ==> after.collect[j] == st.collect[j]
        }),
    decreases upto,
{
    if upto > 0 {
        let before = after_metrics(st, ms, key_prefix, filter_in, filter_out, upto - 1);
        lemma_after_metrics_keeps(st, ms, key_prefix, filter_in, filter_out, upto - 1);
        lemma_after_metric_keeps(before, ms[upto - 1], key_prefix, filter_in, filter_out);
        let after = after_metrics(st, ms, key_prefix, filter_in, filter_out, upto);
        assert(after.metrics.take(st.metrics.len() as int) =~= before.metrics.take(
            st.metrics.len() as int,
        ));
        assert(after.diagnostics.take(st.diagnostics.len() as int) =~= before.diagnostics.take(
            st.diagnostics.len() as int,
        ));
    } else {
        assert(st.metrics.take(st.metrics.len() as int) =~= st.metrics);
        assert(st.diagnostics.take(st.diagnostics.len() as int) =~= st.diagnostics);
    }
}

/// What was collected is never changed by a run: a pass adds one list
/// behind the others and leaves the others as they were.
pub proof fn lemma_after_pass_appends(
    st: RunState,
    ms: Seq<Metric>,
    key_prefix: Seq<char>,
    filter_in: Seq<String>,
    filter_out: Seq<String>,
)
    ensures
        ({
            let after = after_pass(st, ms, key_prefix, filter_in, filter_out);
            &&& after.collect.len() == st.collect.len() + 1
            &&& after.collect.take(st.collect.len() as int) == st.collect
            &&& after.counter >= st.counter
            &&& severity(after.status) >= severity(st.status)
            &&& after.metrics.take(st.metrics.len() as int) == st.metrics
        }),
{
    let begun = RunState { collect: st.collect.push(Seq::<(Seq<char>, Value)>::empty()), ..st };
    lemma_after_metrics_keeps(begun, ms, key_prefix, filter_in, filter_out, ms.len() as int);
    let after = after_pass(st, ms, key_prefix, filter_in, filter_out);
    assert forall|j: int| 0 <= j < st.collect.len() implies after.collect[j] == st.collect[j] by {
        assert(begun.collect[j] == st.collect[j]);
    }
    assert(after.collect.take(st.collect.len() as int) =~= st.collect);
}

/// What a metric publishes is what its name stands for afterwards, unless
/// an earlier list of the collection holds the same name and so comes
/// first.
pub proof fn lemma_published_is_visible(
    st: RunState,
    m: Metric,
    key_prefix: Seq<char>,
    filter_in: Seq<String>,
    filter_out: Seq<String>,
)
    requires
        st.collect.len() > 0,
        evaluate_metric(m, st.collect, st.counter, filter_in, filter_out) is Ok,
        forall|j: int|
            0 <= j < st.collect.len() - 1 ==> !has_key(
                #[trigger] st.collect[j],
                name_bytes(key_prefix + m.name@),
            ),
    ensures
        lookup(
            after_metric(st, m, key_prefix, filter_in, filter_out).collect,
            name_bytes(key_prefix + m.name@),
        ) == Some(evaluate_metric(m, st.collect, st.counter, filter_in, filter_out)->Ok_0.value),
{
    let o = evaluate_metric(m, st.collect, st.counter, filter_in, filter_out)->Ok_0;
    let key = key_prefix + m.name@;
    let kb = name_bytes(key);
    let after = after_metric(st, m, key_prefix, filter_in, filter_out).collect;
    let last = st.collect.len() - 1;
    lemma_inserted(st.collect.last(), key, o.value, kb);
    lemma_find_result(after, kb, 0);
    let j0 = find_result(after, kb, 0);
    assert(has_key(after[last], kb));
    if j0 < last {
        assert(after[j0] == st.collect[j0]);
    }
}

/// The numbers of unlabeled measurements run through the whole run: a
/// metric without labels, where nothing filters, adds one measurement for
/// each of its numbers behind those that are there, numbered from the
/// run's counter on, and leaves the counter behind its last number for the
/// metric that comes next.
pub proof fn lemma_numbers_are_shared(
    st: RunState,
    m: Metric,
    key_prefix: Seq<char>,
    filter_in: Seq<String>,
    filter_out: Seq<String>,
)
    requires
        m.prefix is None,
        filter_in.len() == 0,
        filter_out.len() == 0,
        evaluate_metric(m, st.collect, st.counter, filter_in, filter_out) is Ok,
    ensures
        ({
            let after = after_metric(st, m, key_prefix, filter_in, filter_out);
            let n = after.metrics.len() - st.metrics.len();
            &&& n >= 0
            &&& after.counter == st.counter + n
            &&& forall|i: int|
                0 <= i < n ==> (#[trigger] after.metrics[st.metrics.len() + i]).name
                    == numbered_name((st.counter + i) as nat, m.name@)
        }),
{
    lemma_unlabeled_metric(m, st.collect, st.counter, filter_in, filter_out);
}

} // verus!
