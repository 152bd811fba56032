//! A check as it is configured: what to collect, what to compute, how to
//! word the outcome.

use crate::ast::texts;
use crate::compute::{Compute, Metric};
use crate::error::Error;
use crate::number::Binary64;
use crate::output::Output;
use crate::status::Status;
use crate::text::same_text;
use crate::threshold::{alerts, threshold_of, Threshold};
use vstd::prelude::*;

verus! {

/// One measurement, ready to be shown.
#[derive(Debug)]
pub struct Perfdata {
    pub name: String,
    pub value: Binary64,
    pub uom: String,
    pub min: Option<Binary64>,
    pub max: Option<Binary64>,
    pub warning: Option<String>,
    pub critical: Option<String>,
    pub status: Option<Status>,
}

/// How a value is asked of the device.
#[derive(Debug, Clone, Copy, PartialEq, Eq, Structural)]
pub enum QueryType {
    Get,
    Walk,
}

/// One value to collect.
#[derive(Debug)]
pub struct Snmp {
    pub name: String,
    pub oid: String,
    pub query: QueryType,
    /// Object identifiers and the names given to what lies under them.
    pub labels: Option<Vec<(String, String)>>,
}

/// The values to collect.
#[derive(Debug)]
pub struct Collect {
    pub snmp: Vec<Snmp>,
}

/// A configured check.
#[derive(Debug)]
pub struct Command {
    pub collect: Collect,
    pub compute: Compute,
    pub output: Output,
}

pub fn default_output() -> (r: Output)
    ensures
        r.ok@ == "Everything is OK"@,
        !r.detail_ok,
        r.detail_warning && r.detail_critical && r.detail_unknown,
{
    Output::new()
}

/// The outcome of a check: its status and the line that reports it.
#[derive(Debug)]
pub struct CmdResult {
    pub status: Status,
    pub output: String,
}

/// The text of an optional string.
pub open spec fn text_of(s: Option<String>) -> Option<Seq<char>> {
    match s {
        Some(t) => Some(t@),
        None => None,
    }
}

/// The status of a value under two optional ranges: `Critical` where the
/// critical range alerts, else `Warning` where the warning range alerts,
/// else `Okay`. A range that is never consulted is never read; one that is
/// consulted and cannot be read is an error.
pub open spec fn status_of(value: Binary64, warning: Option<Seq<char>>, critical: Option<Seq<char>>) -> Result<
    Status,
    Error,
> {
    let from_warning = match warning {
        None => Ok(Status::Okay),
        Some(w) => match threshold_of(w) {
            Err(e) => Err(e),
            Ok(th) => if alerts(th, value) {
                Ok(Status::Warning)
            } else {
                Ok(Status::Okay)
            },
        },
    };
    match critical {
        None => from_warning,
        Some(c) => match threshold_of(c) {
            Err(e) => Err(e),
            Ok(th) => if alerts(th, value) {
                Ok(Status::Critical)
            } else {
                from_warning
            },
        },
    }
}

/// The status of a value under two optional ranges.
pub fn compute_status(value: &Binary64, warn: &Option<String>, crit: &Option<String>) -> (r: Result<
    Status,
    Error,
>)
    ensures
        r == status_of(*value, text_of(*warn), text_of(*crit)),
{
    if let Some(c) = crit {
        let th = Threshold::parse(c.as_str())?;
        if th.in_alert(*value) {
            return Ok(Status::Critical);
        }
    }
    if let Some(w) = warn {
        let th = Threshold::parse(w.as_str())?;
        if th.in_alert(*value) {
            return Ok(Status::Warning);
        }
    }
    Ok(Status::Okay)
}

/// Whether a metric answers to a threshold name.
pub open spec fn answers_to(m: Metric, name: Seq<char>) -> bool {
    m.threshold_suffix is Some && m.threshold_suffix->0@ == name
}

/// The first metric from `i` on that answers to a threshold name; the
/// length of the list where none does.
pub open spec fn first_answering(ms: Seq<Metric>, name: Seq<char>, i: int) -> int
    decreases ms.len() - i,
{
    if 0 <= i < ms.len() {
        if answers_to(ms[i], name) {
            i
        } else {
            first_answering(ms, name, i + 1)
        }
    } else {
        ms.len() as int
    }
}

/// Where the first metric that answers to a threshold name stands.
pub fn find_answering(ms: &Vec<Metric>, name: &str) -> (r: Option<usize>)
    ensures
        match r {
            Some(i) => i == first_answering(ms@, name@, 0) && i < ms@.len(),
            None => first_answering(ms@, name@, 0) == ms@.len(),
        },
{
    let mut i: usize = 0;
    while i < ms.len()
        invariant
            i <= ms.len(),
            first_answering(ms@, name@, i as int) == first_answering(ms@, name@, 0),
        decreases ms.len() - i,
    {
        let hit = match &ms[i].threshold_suffix {
            Some(suffix) => same_text(suffix.as_str(), name),
            None => false,
        };
        if hit {
            return Some(i);
        }
        i = i + 1;
    }
    None
}

/// A list of metrics in which the one at `i` has a new warning range.
pub open spec fn with_warning(ms: Seq<Metric>, i: int, value: String) -> Seq<Metric> {
    ms.update(i, Metric { warning: Some(value), ..ms[i] })
}

/// A list of metrics in which the one at `i` has a new critical range.
pub open spec fn with_critical(ms: Seq<Metric>, i: int, value: String) -> Seq<Metric> {
    ms.update(i, Metric { critical: Some(value), ..ms[i] })
}

/// Which range of a metric a late threshold sets.
#[derive(Debug, Clone, Copy, PartialEq, Eq, Structural)]
pub enum Level {
    Warning,
    Critical,
}

/// A list of metrics in which the one at `i` has a new range.
pub open spec fn with_range(ms: Seq<Metric>, i: int, level: Level, value: String) -> Seq<Metric> {
    match level {
        Level::Warning => with_warning(ms, i, value),
        Level::Critical => with_critical(ms, i, value),
    }
}

/// What computing is configured after a range has been attached to the
/// first metric that answers to `name`, the metrics coming before the
/// aggregations; unchanged where none answers.
pub open spec fn attached(c: Compute, name: Seq<char>, level: Level, value: String) -> (Seq<Metric>, Option<Seq<Metric>>) {
    let i = first_answering(c.metrics@, name, 0);
    if i < c.metrics@.len() {
        (with_range(c.metrics@, i, level, value), metrics_of(c.aggregations))
    } else {
        match c.aggregations {
            None => (c.metrics@, None),
            Some(a) => {
                let j = first_answering(a@, name, 0);
                if j < a@.len() {
                    (c.metrics@, Some(with_range(a@, j, level, value)))
                } else {
                    (c.metrics@, Some(a@))
                }
            },
        }
    }
}

/// The metrics of an optional list.
pub open spec fn metrics_of(a: Option<Vec<Metric>>) -> Option<Seq<Metric>> {
    match a {
        Some(v) => Some(v@),
        None => None,
    }
}

/// Gives the metric at `i` a new range.
fn set_range(ms: &mut Vec<Metric>, i: usize, level: Level, value: String)
    requires
        i < old(ms)@.len(),
    ensures
        final(ms)@ == with_range(old(ms)@, i as int, level, value),
{
    let mut m = ms.remove(i);
    match level {
        Level::Warning => {
            m.warning = Some(value);
        },
        Level::Critical => {
            m.critical = Some(value);
        },
    }
    ms.insert(i, m);
    assert(ms@ =~= with_range(old(ms)@, i as int, level, value));
}

impl Command {
    /// Attaches a range to the first metric that answers to `name`.
    pub fn attach(&mut self, name: &str, level: Level, value: String)
        ensures
            (final(self).compute.metrics@, metrics_of(final(self).compute.aggregations)) == attached(
                old(self).compute,
                name@,
                level,
                value,
            ),
            final(self).collect == old(self).collect,
            final(self).output == old(self).output,
    {
        match find_answering(&self.compute.metrics, name) {
            Some(i) => {
                set_range(&mut self.compute.metrics, i, level, value);
            },
            None => {
                let found = match &self.compute.aggregations {
                    Some(a) => find_answering(a, name),
                    None => None,
                };
                if let Some(j) = found {
                    let mut a = self.compute.aggregations.take().unwrap();
                    set_range(&mut a, j, level, value);
                    self.compute.aggregations = Some(a);
                }
            },
        }
    }

    /// Attaches a warning range to the first metric, or else the first
    /// aggregation, whose threshold name is `name`. Nothing changes where
    /// there is none.
    pub fn add_warning(&mut self, name: &str, value: String)
        ensures
            (final(self).compute.metrics@, metrics_of(final(self).compute.aggregations)) == attached(
                old(self).compute,
                name@,
                Level::Warning,
                value,
            ),
            final(self).collect == old(self).collect,
            final(self).output == old(self).output,
    {
        self.attach(name, Level::Warning, value)
    }

    /// Attaches a critical range to the first metric, or else the first
    /// aggregation, whose threshold name is `name`. Nothing changes where
    /// there is none.
    pub fn add_critical(&mut self, name: &str, value: String)
        ensures
            (final(self).compute.metrics@, metrics_of(final(self).compute.aggregations)) == attached(
                old(self).compute,
                name@,
                Level::Critical,
                value,
            ),
            final(self).collect == old(self).collect,
            final(self).output == old(self).output,
    {
        self.attach(name, Level::Critical, value)
    }
}

/// One request to make of the device.
#[derive(Debug)]
pub enum Query {
    /// Walk the subtree under an object identifier.
    Walk { oid: String, name: String },
    /// Walk the subtree and name what is found by its labels.
    WalkWithLabels { oid: String, name: String, labels: Vec<(String, String)> },
    /// Get several values with one request.
    BulkGet { oids: Vec<String>, names: Vec<String> },
}

/// A request as mathematics.
pub enum QueryView {
    Walk { oid: Seq<char>, name: Seq<char> },
    WalkWithLabels { oid: Seq<char>, name: Seq<char>, labels: Seq<(Seq<char>, Seq<char>)> },
    BulkGet { oids: Seq<Seq<char>>, names: Seq<Seq<char>> },
}

/// Labels as mathematics.
pub open spec fn label_pairs(l: Seq<(String, String)>) -> Seq<(Seq<char>, Seq<char>)> {
    Seq::new(l.len(), |i: int| (l[i].0@, l[i].1@))
}

impl View for Query {
    type V = QueryView;

    open spec fn view(&self) -> QueryView {
        match self {
            Query::Walk { oid, name } => QueryView::Walk { oid: oid@, name: name@ },
            Query::WalkWithLabels { oid, name, labels } => QueryView::WalkWithLabels {
                oid: oid@,
                name: name@,
                labels: label_pairs(labels@),
            },
            Query::BulkGet { oids, names } => QueryView::BulkGet {
                oids: texts(oids@),
                names: texts(names@),
            },
        }
    }
}

/// Requests as mathematics.
pub open spec fn query_views(q: Seq<Query>) -> Seq<QueryView> {
    Seq::new(q.len(), |i: int| q[i]@)
}

/// The walk that a value to collect asks for.
pub open spec fn walk_of(s: Snmp) -> QueryView {
    match s.labels {
        Some(l) => QueryView::WalkWithLabels { oid: s.oid@, name: s.name@, labels: label_pairs(l@) },
        None => QueryView::Walk { oid: s.oid@, name: s.name@ },
    }
}

/// The walks among the first `upto` values to collect, in order.
pub open spec fn walks(snmp: Seq<Snmp>, upto: int) -> Seq<QueryView>
    decreases upto,
{
    if upto <= 0 {
        Seq::<QueryView>::empty()
    } else if snmp[upto - 1].query == QueryType::Walk {
        walks(snmp, upto - 1).push(walk_of(snmp[upto - 1]))
    } else {
        walks(snmp, upto - 1)
    }
}

/// The object identifiers of the gets among the first `upto` values to
/// collect, in order.
pub open spec fn get_oids(snmp: Seq<Snmp>, upto: int) -> Seq<Seq<char>>
    decreases upto,
{
    if upto <= 0 {
        Seq::<Seq<char>>::empty()
    } else if snmp[upto - 1].query == QueryType::Get {
        get_oids(snmp, upto - 1).push(snmp[upto - 1].oid@)
    } else {
        get_oids(snmp, upto - 1)
    }
}

/// The names of the gets among the first `upto` values to collect, in
/// order.
pub open spec fn get_names(snmp: Seq<Snmp>, upto: int) -> Seq<Seq<char>>
    decreases upto,
{
    if upto <= 0 {
        Seq::<Seq<char>>::empty()
    } else if snmp[upto - 1].query == QueryType::Get {
        get_names(snmp, upto - 1).push(snmp[upto - 1].name@)
    } else {
        get_names(snmp, upto - 1)
    }
}

/// The requests that collect everything: one walk for each value that is
/// walked, in order, then one request for all the values that are got,
/// where there is any.
pub open spec fn requests(snmp: Seq<Snmp>) -> Seq<QueryView> {
    let n = snmp.len() as int;
    if get_oids(snmp, n).len() > 0 {
        walks(snmp, n).push(QueryView::BulkGet { oids: get_oids(snmp, n), names: get_names(snmp, n) })
    } else {
        walks(snmp, n)
    }
}

/// A copy of a list of labels.
pub fn copy_labels(l: &Vec<(String, String)>) -> (r: Vec<(String, String)>)
    ensures
        r@ == l@,
{
    let mut out: Vec<(String, String)> = Vec::with_capacity(l.len());
    let mut i: usize = 0;
    while i < l.len()
        invariant
            i <= l.len(),
            out@ == l@.take(i as int),
        decreases l.len() - i,
    {
        out.push((l[i].0.clone(), l[i].1.clone()));
        assert(out@ =~= l@.take(i + 1));
        i = i + 1;
    }
    assert(l@.take(l.len() as int) =~= l@);
    out
}

impl Command {
    /// The requests to make of the device, in the order in which to make
    /// them. The answers, one collection for each request, are what `run`
    /// takes.
    pub fn queries(&self) -> (r: Vec<Query>)
        ensures
            query_views(r@) == requests(self.collect.snmp@),
    {
        let snmp = &self.collect.snmp;
        let mut out: Vec<Query> = Vec::new();
        let mut oids: Vec<String> = Vec::new();
        let mut names: Vec<String> = Vec::new();
        let mut i: usize = 0;
        assert(query_views(out@) =~= walks(snmp@, 0));
        assert(texts(oids@) =~= get_oids(snmp@, 0));
        assert(texts(names@) =~= get_names(snmp@, 0));
        while i < snmp.len()
            invariant
                i <= snmp.len(),
                query_views(out@) == walks(snmp@, i as int),
                texts(oids@) == get_oids(snmp@, i as int),
                texts(names@) == get_names(snmp@, i as int),
            decreases snmp.len() - i,
        {
            let s = &snmp[i];
            let ghost q_before = query_views(out@);
            let ghost o_before = texts(oids@);
            let ghost n_before = texts(names@);
            match s.query {
                QueryType::Walk => {
                    let q = match &s.labels {
                        Some(l) => Query::WalkWithLabels {
                            oid: s.oid.clone(),
                            name: s.name.clone(),
                            labels: copy_labels(l),
                        },
                        None => Query::Walk { oid: s.oid.clone(), name: s.name.clone() },
                    };
                    out.push(q);
                    assert(query_views(out@) =~= q_before.push(walk_of(*s)));
                },
                QueryType::Get => {
                    oids.push(s.oid.clone());
                    names.push(s.name.clone());
                    assert(texts(oids@) =~= o_before.push(s.oid@));
                    assert(texts(names@) =~= n_before.push(s.name@));
                },
            }
            i = i + 1;
        }
        if oids.len() > 0 {
            let ghost q_before = query_views(out@);
            let q = Query::BulkGet { oids, names };
            out.push(q);
            assert(query_views(out@) =~= q_before.push(q@));
        }
        out
    }
}

} // verus!
