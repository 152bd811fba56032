//! What is to be measured: the definitions of metrics, and the evaluation of
//! the formulas and templates that they hold.

use crate::ast::{ExprResult, Value};
use crate::error::Error;
use crate::eval::eval_tree;
use crate::number::Binary64;
use crate::parser::{parse, parse_bytes};
use crate::snmp::{namespaces, Names, SnmpResult};
use crate::template::{eval_template, eval_template_text};
use vstd::prelude::*;
use vstd::string::StringSliceAdditionalSpecFns;

verus! {

/// The definition of one metric.
#[derive(Debug)]
pub struct Metric {
    pub name: String,
    /// A template for the labels of the metric's values.
    pub prefix: Option<String>,
    /// The formula of the metric.
    pub value: String,
    /// The unit.
    pub uom: String,
    pub min_expr: Option<String>,
    pub min: Option<Binary64>,
    pub max_expr: Option<String>,
    pub max: Option<Binary64>,
    /// The name under which thresholds are attached to the metric later.
    pub threshold_suffix: Option<String>,
    pub warning: Option<String>,
    pub critical: Option<String>,
}

pub fn empty_string() -> (r: String)
    ensures
        r@ == Seq::<char>::empty(),
{
    String::new()
}

/// The metrics of a check, and what is computed from them afterwards.
#[derive(Debug)]
pub struct Compute {
    pub metrics: Vec<Metric>,
    pub aggregations: Option<Vec<Metric>>,
}

/// Evaluates formulas and templates against one collection.
pub struct Parser<'a> {
    collect: &'a Vec<SnmpResult>,
}

/// What a formula, given as text, evaluates to: the value of the formula
/// that the text spells, a name that nothing holds being zero.
pub open spec fn eval_text(text: Seq<u8>, collect: Seq<Names>) -> Result<Value, Error> {
    match parse_bytes(text) {
        Err(e) => Err(Error::Parse { cause: e }),
        Ok(t) => match eval_tree(t, collect, false) {
            Ok(v) => Ok(v),
            Err(e) => Err(Error::Eval { reason: e }),
        },
    }
}

/// What a template evaluates to.
pub open spec fn eval_str_text(text: Seq<char>, collect: Seq<Names>) -> Result<Value, Error> {
    match eval_template(text, collect) {
        Ok(v) => Ok(v),
        Err(e) => Err(Error::Eval { reason: e }),
    }
}

/// Whether a computed result is the one that is wanted: the same error, or
/// a value with the wanted view.
pub open spec fn gives(r: Result<ExprResult, Error>, want: Result<Value, Error>) -> bool {
    match want {
        Ok(v) => r is Ok && r->Ok_0@ == v,
        Err(e) => r is Err && r->Err_0 == e,
    }
}

impl<'a> Parser<'a> {
    /// The collection that names are looked up in.
    pub closed spec fn collection(&self) -> Seq<SnmpResult> {
        self.collect@
    }

    pub fn new(collect: &'a Vec<SnmpResult>) -> (r: Parser<'a>)
        ensures
            r.collection() == collect@,
    {
        Parser { collect }
    }

    /// Parses a formula and evaluates it.
    pub fn eval(&self, expr: &str) -> (r: Result<ExprResult, Error>)
        ensures
            gives(r, eval_text(expr.spec_bytes(), namespaces(self.collection()))),
    {
        match parse(expr) {
            Err(e) => Err(Error::Parse { cause: e }),
            Ok(tree) => match tree.eval(self.collect) {
                Ok(v) => Ok(v),
                Err(e) => Err(Error::Eval { reason: e }),
            },
        }
    }

    /// Evaluates a template.
    pub fn eval_str(&self, expr: &str) -> (r: Result<ExprResult, Error>)
        ensures
            gives(r, eval_str_text(expr@, namespaces(self.collection()))),
    {
        match eval_template_text(expr, self.collect) {
            Ok(v) => Ok(v),
            Err(e) => Err(Error::Eval { reason: e }),
        }
    }
}

} // verus!
