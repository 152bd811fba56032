//! What can go wrong.

use crate::ast::EvalError;
use crate::format::{float_string, float_text};
use crate::number::Binary64;
use crate::parser::ParseError;
use vstd::prelude::*;
use vstd::string::StringExecFns;

verus! {

#[derive(Debug, PartialEq)]
pub enum Error {
    /// A lone value stands for `0:value`, so it must be greater than zero.
    NegativeSimpleThreshold { value: Binary64 },
    /// The start of a range lies above its end.
    BadThresholdRange { start: Binary64, end: Binary64 },
    /// A text that does not follow `[@]start:end`.
    BadThreshold,
    /// A filter that is no regular expression.
    Regex { pattern: String },
    /// A text that is no formula.
    Parse { cause: ParseError },
    /// A formula or a template that cannot be evaluated.
    Eval { reason: EvalError },
    /// More unnamed measurements than can be numbered.
    CounterOverflow,
}

/// What an error says.
pub open spec fn message_of(e: Error) -> Seq<char> {
    match e {
        Error::NegativeSimpleThreshold { value } => "Threshold: This syntax is a shortcut of '0:"@
            + float_text(value.bits) + "', so "@ + float_text(value.bits)
            + " must be greater than 0."@,
        Error::BadThresholdRange { start, end } => "Threshold: The start value "@ + float_text(
            start.bits,
        ) + " must be less than the end value "@ + float_text(end.bits),
        Error::BadThreshold => "Threshold: The threshold syntax must follow '[@]start:end'"@,
        Error::Regex { pattern } => "Filter: not a regular expression: "@ + pattern@,
        Error::Parse { cause } => match cause {
            ParseError::Lexical(_) => "Formula: a character that belongs to no token"@,
            ParseError::UnexpectedEnd => "Formula: the text ends too early"@,
            ParseError::UnexpectedToken { start, end } => "Formula: a token out of place"@,
            ParseError::TrailingInput { start, end } => "Formula: text behind the formula"@,
        },
        Error::Eval { reason } => match reason {
            EvalError::TypeMismatch => "Evaluation: a value of the wrong kind"@,
            EvalError::UnknownMetric => "Evaluation: a name that nothing holds"@,
        },
        Error::CounterOverflow => "Too many measurements without a label"@,
    }
}

impl Error {
    /// What the error says. Numbers are written with two decimals and
    /// trimmed.
    pub fn message(&self) -> (r: String)
        ensures
            r@ == message_of(*self),
    {
        match self {
            Error::NegativeSimpleThreshold { value } => {
                let v = float_string(value);
                let mut out = String::from_str("Threshold: This syntax is a shortcut of '0:");
                out.append(v.as_str());
                out.append("', so ");
                out.append(v.as_str());
                out.append(" must be greater than 0.");
                out
            },
            Error::BadThresholdRange { start, end } => {
                let mut out = String::from_str("Threshold: The start value ");
                out.append(float_string(start).as_str());
                out.append(" must be less than the end value ");
                out.append(float_string(end).as_str());
                out
            },
            Error::BadThreshold => String::from_str(
                "Threshold: The threshold syntax must follow '[@]start:end'",
            ),
            Error::Regex { pattern } => {
                let mut out = String::from_str("Filter: not a regular expression: ");
                out.append(pattern.as_str());
                out
            },
            Error::Parse { cause } => match cause {
                ParseError::Lexical(_) => String::from_str(
                    "Formula: a character that belongs to no token",
                ),
                ParseError::UnexpectedEnd => String::from_str("Formula: the text ends too early"),
                ParseError::UnexpectedToken { start, end } => String::from_str(
                    "Formula: a token out of place",
                ),
                ParseError::TrailingInput { start, end } => String::from_str(
                    "Formula: text behind the formula",
                ),
            },
            Error::Eval { reason } => match reason {
                EvalError::TypeMismatch => String::from_str("Evaluation: a value of the wrong kind"),
                EvalError::UnknownMetric => String::from_str(
                    "Evaluation: a name that nothing holds",
                ),
            },
            Error::CounterOverflow => String::from_str("Too many measurements without a label"),
        }
    }
}

} // verus!
