//! The line that reports a run: a headline, a bar, and the measurements in
//! the form `name=value unit;warning;critical;min;max`.

use crate::ast::{ExprResult, Value};
use crate::compute::{eval_str_text, Parser};
use crate::error::Error;
use crate::format::{float_string, float_text};
use crate::generic::{CmdResult, Command, Perfdata};
use crate::number::Binary64;
use crate::output::Output;
use crate::pipeline::{perf_views, run_of, PerfView, RunState};
use crate::snmp::{namespaces, Names, SnmpResult};
use crate::status::{severity, Status};
use vstd::prelude::*;
use vstd::string::StringExecFns;

verus! {

/// Puts a run into words.
pub struct OutputFormatter<'a> {
    status: Status,
    collect: &'a Vec<SnmpResult>,
    metrics: &'a Vec<Perfdata>,
    output_formatter: &'a Output,
}

/// An optional text, empty where there is none.
pub open spec fn or_empty(s: Option<Seq<char>>) -> Seq<char> {
    match s {
        Some(t) => t,
        None => Seq::<char>::empty(),
    }
}

/// An optional number as text, empty where there is none.
pub open spec fn bound_text(b: Option<Binary64>) -> Seq<char> {
    match b {
        Some(n) => float_text(n.bits),
        None => Seq::<char>::empty(),
    }
}

/// One measurement as `name=value unit;warning;critical;min;max`.
pub open spec fn perf_text(p: PerfView) -> Seq<char> {
    p.name + seq!['='] + float_text(p.value.bits) + p.uom + seq![';'] + or_empty(p.warning) + seq![
        ';',
    ] + or_empty(p.critical) + seq![';'] + bound_text(p.min) + seq![';'] + bound_text(p.max)
}

/// Texts in a row with a separator between them.
pub open spec fn separated(items: Seq<Seq<char>>, sep: Seq<char>) -> Seq<char>
    decreases items.len(),
{
    if items.len() == 0 {
        Seq::<char>::empty()
    } else if items.len() == 1 {
        items[0]
    } else {
        separated(items.drop_last(), sep) + sep + items.last()
    }
}

/// The measurements as texts.
pub open spec fn perf_texts(ps: Seq<PerfView>) -> Seq<Seq<char>> {
    Seq::new(ps.len(), |i: int| perf_text(ps[i]))
}

/// Whether a measurement is listed in the details of a status: it has a
/// status, and that is at least as bad.
pub open spec fn listed(p: PerfView, status: Status) -> bool {
    p.status is Some && severity(p.status->0) >= severity(status)
}

/// One measurement as `name is value unit`.
pub open spec fn detail_text(p: PerfView) -> Seq<char> {
    p.name + " is "@ + float_text(p.value.bits) + p.uom
}

/// The details of a status among the first `upto` measurements.
pub open spec fn detail_texts(ps: Seq<PerfView>, status: Status, upto: int) -> Seq<Seq<char>>
    decreases upto,
{
    if upto <= 0 {
        Seq::<Seq<char>>::empty()
    } else if listed(ps[upto - 1], status) {
        detail_texts(ps, status, upto - 1).push(detail_text(ps[upto - 1]))
    } else {
        detail_texts(ps, status, upto - 1)
    }
}

/// A wording followed by the details of a status.
pub open spec fn detailed(wording: Seq<char>, ps: Seq<PerfView>, status: Status, sep: Seq<char>) -> Seq<
    char,
> {
    wording + separated(detail_texts(ps, status, ps.len() as int), sep)
}

/// The headline for `Okay` without details: the wording taken as a
/// template. It must come to one text; where it comes to several or to
/// none, there is no headline and no line at all. A template that cannot be
/// evaluated is used as it stands.
pub open spec fn calm_headline(wording: Seq<char>, collect: Seq<Names>) -> Option<Seq<char>> {
    match eval_str_text(wording, collect) {
        Ok(Value::Str(s)) => Some(s),
        Ok(Value::StrVector(v)) => if v.len() == 1 {
            Some(v[0])
        } else {
            None
        },
        Ok(Value::Number(_)) => None,
        Ok(_) => Some(Seq::<char>::empty()),
        Err(_) => Some(wording),
    }
}

/// The headline of a run.
pub open spec fn headline(status: Status, o: Output, collect: Seq<Names>, ps: Seq<PerfView>) -> Option<
    Seq<char>,
> {
    match status {
        Status::Okay => if o.detail_ok {
            Some(detailed(o.ok@, ps, status, o.metric_separator@))
        } else {
            calm_headline(o.ok@, collect)
        },
        Status::Warning => if o.detail_warning {
            Some(detailed(o.warning@, ps, status, o.metric_separator@))
        } else {
            Some(o.warning@)
        },
        Status::Critical => if o.detail_critical {
            Some(detailed(o.critical@, ps, status, o.metric_separator@))
        } else {
            Some(o.critical@)
        },
        Status::Unknown => if o.detail_unknown {
            Some(detailed(o.unknown@, ps, status, o.metric_separator@))
        } else {
            Some(o.unknown@)
        },
    }
}

/// The line that reports a run.
pub open spec fn report_line(status: Status, o: Output, collect: Seq<Names>, ps: Seq<PerfView>) -> Seq<
    char,
> {
    match headline(status, o, collect, ps) {
        Some(h) => h + " | "@ + separated(perf_texts(ps), " "@),
        None => Seq::<char>::empty(),
    }
}

/// Appends a text to a row of texts, with the separator before it unless
/// it is the first.
fn push_separated(out: &mut String, count: usize, sep: &str, item: &str, Ghost(items): Ghost<
    Seq<Seq<char>>,
>)
    requires
        count == items.len(),
        old(out)@ == separated(items, sep@),
    ensures
        final(out)@ == separated(items.push(item@), sep@),
{
    if count > 0 {
        out.append(sep);
    }
    out.append(item);
    proof {
        let more = items.push(item@);
        assert(more.drop_last() =~= items);
        if count == 0 {
            assert(out@ =~= item@);
        }
    }
}

/// One measurement as `name=value unit;warning;critical;min;max`.
pub fn perf_string(p: &Perfdata) -> (r: String)
    ensures
        r@ == perf_text(p@),
{
    proof {
        reveal_strlit("=");
        reveal_strlit(";");
    }
    let mut out = p.name.clone();
    out.append("=");
    out.append(float_string(&p.value).as_str());
    out.append(p.uom.as_str());
    out.append(";");
    match &p.warning {
        Some(w) => out.append(w.as_str()),
        None => {},
    }
    out.append(";");
    match &p.critical {
        Some(c) => out.append(c.as_str()),
        None => {},
    }
    out.append(";");
    match &p.min {
        Some(n) => out.append(float_string(n).as_str()),
        None => {},
    }
    out.append(";");
    match &p.max {
        Some(n) => out.append(float_string(n).as_str()),
        None => {},
    }
    assert(out@ =~= perf_text(p@));
    out
}

/// The measurements in a row, a space between them.
pub fn perf_line(ps: &Vec<Perfdata>) -> (r: String)
    ensures
        r@ == separated(perf_texts(perf_views(ps@)), " "@),
{
    let mut out = String::new();
    let mut i: usize = 0;
    let ghost all = perf_texts(perf_views(ps@));
    while i < ps.len()
        invariant
            i <= ps.len(),
            all == perf_texts(perf_views(ps@)),
            out@ == separated(all.take(i as int), " "@),
        decreases ps.len() - i,
    {
        let item = perf_string(&ps[i]);
        push_separated(&mut out, i, " ", item.as_str(), Ghost(all.take(i as int)));
        assert(all.take(i + 1) =~= all.take(i as int).push(item@));
        i = i + 1;
    }
    assert(all.take(ps.len() as int) =~= all);
    out
}

impl<'a> OutputFormatter<'a> {
    pub closed spec fn status(&self) -> Status {
        self.status
    }

    pub closed spec fn collection(&self) -> Seq<SnmpResult> {
        self.collect@
    }

    pub closed spec fn measurements(&self) -> Seq<Perfdata> {
        self.metrics@
    }

    pub closed spec fn wording(&self) -> Output {
        *self.output_formatter
    }

    pub fn new(
        status: Status,
        collect: &'a Vec<SnmpResult>,
        metrics: &'a Vec<Perfdata>,
        formatter: &'a Output,
    ) -> (r: OutputFormatter<'a>)
        ensures
            r.status() == status,
            r.collection() == collect@,
            r.measurements() == metrics@,
            r.wording() == *formatter,
    {
        OutputFormatter { status, collect, metrics, output_formatter: formatter }
    }

    /// A wording followed by the measurements that are at least as bad as
    /// the status of the run.
    pub fn build_detail(&self, prefix: &str) -> (r: String)
        ensures
            r@ == detailed(
                prefix@,
                perf_views(self.measurements()),
                self.status(),
                self.wording().metric_separator@,
            ),
    {
        let ps = self.metrics;
        let ghost views = perf_views(ps@);
        let mut list = String::new();
        let mut count: usize = 0;
        let mut i: usize = 0;
        while i < ps.len()
            invariant
                i <= ps.len(),
                count <= i,
                views == perf_views(ps@),
                count == detail_texts(views, self.status, i as int).len(),
                list@ == separated(
                    detail_texts(views, self.status, i as int),
                    self.output_formatter.metric_separator@,
                ),
            decreases ps.len() - i,
        {
            let m = &ps[i];
            let shown = match m.status {
                Some(s) => s.is_worse_than(self.status),
                None => false,
            };
            if shown {
                proof {
                    reveal_strlit(" is ");
                }
                let mut item = m.name.clone();
                item.append(" is ");
                item.append(float_string(&m.value).as_str());
                item.append(m.uom.as_str());
                assert(item@ =~= detail_text(views[i as int]));
                push_separated(
                    &mut list,
                    count,
                    self.output_formatter.metric_separator.as_str(),
                    item.as_str(),
                    Ghost(detail_texts(views, self.status, i as int)),
                );
                count = count + 1;
            }
            i = i + 1;
        }
        let mut out = String::from_str(prefix);
        out.append(list.as_str());
        out
    }

    /// The headline of the run, if it has one.
    pub fn headline(&self) -> (r: Option<String>)
        ensures
            match headline(
                self.status(),
                self.wording(),
                namespaces(self.collection()),
                perf_views(self.measurements()),
            ) {
                Some(h) => r is Some && r->0@ == h,
                None => r is None,
            },
    {
        let o = self.output_formatter;
        match self.status {
            Status::Okay => {
                if o.detail_ok {
                    Some(self.build_detail(o.ok.as_str()))
                } else {
                    let parser = Parser::new(self.collect);
                    match parser.eval_str(o.ok.as_str()) {
                        Ok(ExprResult::Str(s)) => Some(s),
                        Ok(ExprResult::StrVector(v)) => {
                            if v.len() == 1 {
                                Some(v[0].clone())
                            } else {
                                None
                            }
                        },
                        Ok(ExprResult::Number(_)) => None,
                        Ok(_) => Some(String::new()),
                        Err(_) => Some(o.ok.clone()),
                    }
                }
            },
            Status::Warning => {
                if o.detail_warning {
                    Some(self.build_detail(o.warning.as_str()))
                } else {
                    Some(o.warning.clone())
                }
            },
            Status::Critical => {
                if o.detail_critical {
                    Some(self.build_detail(o.critical.as_str()))
                } else {
                    Some(o.critical.clone())
                }
            },
            Status::Unknown => {
                if o.detail_unknown {
                    Some(self.build_detail(o.unknown.as_str()))
                } else {
                    Some(o.unknown.clone())
                }
            },
        }
    }

    /// The line that reports the run.
    pub fn to_string(&self) -> (r: String)
        ensures
            r@ == report_line(
                self.status(),
                self.wording(),
                namespaces(self.collection()),
                perf_views(self.measurements()),
            ),
    {
        match self.headline() {
            None => String::new(),
            Some(h) => {
                let mut out = h;
                out.append(" | ");
                out.append(perf_line(self.metrics).as_str());
                out
            },
        }
    }
}

/// The outcome of a run as mathematics: its status and its line.
pub open spec fn outcome_of(st: RunState, o: Output) -> (Status, Seq<char>) {
    (st.status, report_line(st.status, o, st.collect, st.metrics))
}

impl Command {
    /// Runs the check on what was collected and reports the outcome.
    pub fn execute(
        &self,
        collect: Vec<SnmpResult>,
        filter_in: &Vec<String>,
        filter_out: &Vec<String>,
    ) -> (r: Result<CmdResult, Error>)
        ensures
            match run_of(*self, namespaces(collect@), filter_in@, filter_out@) {
                Err(e) => r is Err && r->Err_0 == e,
                Ok(st) => r is Ok && (r->Ok_0.status, r->Ok_0.output@) == outcome_of(
                    st,
                    self.output,
                ),
            },
    {
        let report = self.run(collect, filter_in, filter_out)?;
        let formatter = OutputFormatter::new(
            report.status,
            &report.collect,
            &report.metrics,
            &self.output,
        );
        let output = formatter.to_string();
        Ok(CmdResult { status: report.status, output })
    }
}

} // verus!
