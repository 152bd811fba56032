//! How the outcome of a check is worded.

use vstd::prelude::*;
use vstd::string::StringExecFns;

verus! {

/// The wording of the four outcomes, and where the measurements that caused
/// an outcome are listed.
#[derive(Debug)]
pub struct Output {
    pub ok: String,
    pub detail_ok: bool,
    pub warning: String,
    pub detail_warning: bool,
    pub critical: String,
    pub detail_critical: bool,
    pub unknown: String,
    pub detail_unknown: bool,
    pub instance_separator: String,
    pub metric_separator: String,
}

pub fn default_ok() -> (r: String)
    ensures
        r@ == "Everything is OK"@,
{
    String::from_str("Everything is OK")
}

pub fn default_warning() -> (r: String)
    ensures
        r@ == "WARNING: "@,
{
    String::from_str("WARNING: ")
}

pub fn default_critical() -> (r: String)
    ensures
        r@ == "CRITICAL: "@,
{
    String::from_str("CRITICAL: ")
}

pub fn default_unknown() -> (r: String)
    ensures
        r@ == "UNKNOWN: "@,
{
    String::from_str("UNKNOWN: ")
}

pub fn default_instance_separator() -> (r: String)
    ensures
        r@ == " - "@,
{
    String::from_str(" - ")
}

pub fn default_metric_separator() -> (r: String)
    ensures
        r@ == ", "@,
{
    String::from_str(", ")
}

pub fn default_bool_false() -> (r: bool)
    ensures
        !r,
{
    false
}

pub fn default_bool_true() -> (r: bool)
    ensures
        r,
{
    true
}

impl Output {
    /// The default wording: details for every outcome but `Okay`.
    pub fn new() -> (r: Output)
        ensures
            r.ok@ == "Everything is OK"@,
            !r.detail_ok,
            r.warning@ == "WARNING: "@,
            r.detail_warning,
            r.critical@ == "CRITICAL: "@,
            r.detail_critical,
            r.unknown@ == "UNKNOWN: "@,
            r.detail_unknown,
            r.instance_separator@ == " - "@,
            r.metric_separator@ == ", "@,
    {
        Output {
            ok: default_ok(),
            detail_ok: false,
            warning: default_warning(),
            detail_warning: true,
            critical: default_critical(),
            detail_critical: true,
            unknown: default_unknown(),
            detail_unknown: true,
            instance_separator: default_instance_separator(),
            metric_separator: default_metric_separator(),
        }
    }
}

} // verus!
