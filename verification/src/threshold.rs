//! Alert ranges in the form `[@]start:end`.
//!
//! A value is in alert when it lies outside the range from `start` to `end`,
//! both included; a leading `@` turns that around. `~` stands for negative
//! infinity, a missing end for positive infinity, and a lone value `v` for
//! `0:v`.

use crate::error::Error;
use crate::number::{
    bits_eq, bits_lt, bits_neg, decimal_value, Binary64, INFINITY_BITS,
};
use crate::text::chars_of;
use vstd::prelude::*;

verus! {

#[derive(Debug, Clone, Copy, PartialEq)]
pub struct Threshold {
    pub start: Binary64,
    pub end: Binary64,
    pub negation: bool,
}

/// What has been read of a range so far.
pub struct Scan {
    pub start: Binary64,
    pub end: Binary64,
    /// How many colons have been read.
    pub colons: nat,
    pub negation: bool,
    /// Whether nothing but blanks has been read.
    pub leading: bool,
}

/// The state before anything is read: the whole number line, not negated.
pub open spec fn initial() -> Scan {
    Scan {
        start: Binary64 { bits: bits_neg(INFINITY_BITS) },
        end: Binary64 { bits: INFINITY_BITS },
        colons: 0,
        negation: false,
        leading: true,
    }
}

pub open spec fn is_blank_char(c: char) -> bool {
    c == ' ' || c == '\t'
}

pub open spec fn is_digit_char(c: char) -> bool {
    '0' <= c <= '9'
}

/// A character that continues a number once it has started.
pub open spec fn is_number_char(c: char) -> bool {
    is_digit_char(c) || c == '.' || c == '-' || c == '+' || c == 'e' || c == 'E'
}

/// The end of the longest run of number characters from `i` on.
pub open spec fn number_run_end(t: Seq<char>, i: int) -> int
    decreases t.len() - i,
{
    if 0 <= i < t.len() && is_number_char(t[i]) {
        number_run_end(t, i + 1)
    } else {
        i
    }
}

/// Characters as bytes.
pub open spec fn as_bytes(t: Seq<char>) -> Seq<u8> {
    Seq::new(t.len(), |i: int| t[i] as u8)
}

/// The state after a number: it is the end of the range once a colon has
/// been read, its start before.
pub open spec fn with_number(st: Scan, v: Binary64) -> Scan {
    if st.colons > 0 {
        Scan { end: v, leading: false, ..st }
    } else {
        Scan { start: v, leading: false, ..st }
    }
}

/// The state after the text from `i` on has been read; `None` where the
/// text breaks the syntax: a character that belongs to nothing, a number
/// that is no decimal literal, or an `@` that something came before.
pub open spec fn scan(t: Seq<char>, i: int, st: Scan) -> Option<Scan>
    decreases t.len() - i,
{
    if i < 0 || i >= t.len() {
        Some(st)
    } else if is_blank_char(t[i]) {
        scan(t, i + 1, st)
    } else if t[i] == '@' {
        if st.leading {
            scan(t, i + 1, Scan { negation: true, leading: false, ..st })
        } else {
            None
        }
    } else if t[i] == '~' {
        scan(t, i + 1, Scan { start: Binary64 { bits: bits_neg(INFINITY_BITS) }, leading: false, ..st })
    } else if t[i] == ':' {
        scan(t, i + 1, Scan { colons: st.colons + 1, leading: false, ..st })
    } else if t[i] == '-' || is_digit_char(t[i]) {
        let j = number_run_end(t, i + 1);
        match decimal_value(as_bytes(t.subrange(i, j))) {
            Some(bits) => if i < j <= t.len() {
                scan(t, j, with_number(st, Binary64 { bits }))
            } else {
                None
            },
            None => None,
        }
    } else {
        None
    }
}

/// `a <= b` on numbers.
pub open spec fn at_most(a: Binary64, b: Binary64) -> bool {
    bits_lt(a.bits, b.bits) || bits_eq(a.bits, b.bits)
}

/// The range that a finished scan describes, or what is wrong with it.
pub open spec fn finish(st: Scan) -> Result<Threshold, Error> {
    if st.colons == 1 {
        if bits_lt(st.end.bits, st.start.bits) {
            Err(Error::BadThresholdRange { start: st.start, end: st.end })
        } else {
            Ok(Threshold { start: st.start, end: st.end, negation: st.negation })
        }
    } else if st.colons > 1 {
        Err(Error::BadThreshold)
    } else if at_most(st.start, Binary64 { bits: 0 }) {
        Err(Error::NegativeSimpleThreshold { value: st.start })
    } else {
        Ok(Threshold { start: Binary64 { bits: 0 }, end: st.start, negation: st.negation })
    }
}

/// The range that a text describes.
pub open spec fn threshold_of(t: Seq<char>) -> Result<Threshold, Error> {
    match scan(t, 0, initial()) {
        None => Err(Error::BadThreshold),
        Some(st) => finish(st),
    }
}

/// Whether a value is in alert for a range.
pub open spec fn alerts(th: Threshold, value: Binary64) -> bool {
    let outside = bits_lt(value.bits, th.start.bits) || bits_lt(th.end.bits, value.bits);
    outside != th.negation
}

/// The end of the longest run of number characters from `i` on.
fn scan_number_run(t: &Vec<char>, i: usize) -> (j: usize)
    requires
        i <= t.len(),
    ensures
        j == number_run_end(t@, i as int),
        i <= j <= t.len(),
{
    let mut j: usize = i;
    while j < t.len() && (('0' <= t[j] && t[j] <= '9') || t[j] == '.' || t[j] == '-' || t[j] == '+'
        || t[j] == 'e' || t[j] == 'E')
        invariant
            i <= j <= t.len(),
            number_run_end(t@, j as int) == number_run_end(t@, i as int),
        decreases t.len() - j,
    {
        j = j + 1;
    }
    j
}

/// The characters from `i` to `j` as bytes.
fn bytes_between(t: &Vec<char>, i: usize, j: usize) -> (r: Vec<u8>)
    requires
        i <= j <= t.len(),
    ensures
        r@ == as_bytes(t@.subrange(i as int, j as int)),
{
    let mut out: Vec<u8> = Vec::with_capacity(j - i);
    let mut k: usize = i;
    while k < j
        invariant
            i <= k <= j <= t.len(),
            out@.len() == k - i,
            forall|x: int| 0 <= x < out@.len() ==> out@[x] == t@[i + x] as u8,
        decreases j - k,
    {
        out.push(t[k] as u8);
        k = k + 1;
    }
    assert(out@ =~= as_bytes(t@.subrange(i as int, j as int)));
    out
}

impl Threshold {
    /// Reads a range from its text.
    pub fn parse(expr: &str) -> (r: Result<Threshold, Error>)
        ensures
            r == threshold_of(expr@),
    {
        let t = chars_of(expr);
        let n = t.len();
        let mut start = Binary64::neg_infinity();
        let mut end = Binary64::infinity();
        let mut colons: usize = 0;
        let mut negation = false;
        let mut leading = true;
        let mut i: usize = 0;
        while i < n
            invariant
                t@ == expr@,
                n == t@.len(),
                i <= n,
                colons <= i,
                scan(t@, i as int, Scan { start, end, colons: colons as nat, negation, leading })
                    == scan(t@, 0, initial()),
            decreases n - i,
        {
            let c = t[i];
            if c == ' ' || c == '\t' {
                i = i + 1;
            } else if c == '@' {
                if !leading {
                    return Err(Error::BadThreshold);
                }
                negation = true;
                leading = false;
                i = i + 1;
            } else if c == '~' {
                start = Binary64::neg_infinity();
                leading = false;
                i = i + 1;
            } else if c == ':' {
                colons = colons + 1;
                leading = false;
                i = i + 1;
            } else if c == '-' || ('0' <= c && c <= '9') {
                let j = scan_number_run(&t, i + 1);
                let text = bytes_between(&t, i, j);
                match Binary64::parse_decimal(text.as_slice()) {
                    Some(v) => {
                        if colons > 0 {
                            end = v;
                        } else {
                            start = v;
                        }
                        leading = false;
                        i = j;
                    },
                    None => {
                        return Err(Error::BadThreshold);
                    },
                }
            } else {
                return Err(Error::BadThreshold);
            }
        }
        if colons == 1 {
            if end.lt(start) {
                Err(Error::BadThresholdRange { start, end })
            } else {
                Ok(Threshold { start, end, negation })
            }
        } else if colons > 1 {
            Err(Error::BadThreshold)
        } else if start.le(Binary64::zero()) {
            Err(Error::NegativeSimpleThreshold { value: start })
        } else {
            Ok(Threshold { start: Binary64::zero(), end: start, negation })
        }
    }

    /// Whether a value is in alert: outside the range, or inside it where
    /// the range is negated. The two ends belong to the inside.
    pub fn in_alert(&self, value: Binary64) -> (r: bool)
        ensures
            r == alerts(*self, value),
            (bits_eq(value.bits, self.start.bits) || bits_eq(value.bits, self.end.bits)) && !bits_lt(
                self.end.bits,
                self.start.bits,
            ) ==> r == self.negation,
    {
        if value.lt(self.start) || value.gt(self.end) {
            !self.negation
        } else {
            self.negation
        }
    }
}

/// The two ends of a range belong to its inside, whichever way the range
/// is read: a value at an end is in alert exactly where the range is
/// negated.
pub proof fn lemma_ends_are_inside(th: Threshold, value: Binary64)
    requires
        !bits_lt(th.end.bits, th.start.bits),
        bits_eq(value.bits, th.start.bits) || bits_eq(value.bits, th.end.bits),
    ensures
        alerts(th, value) == th.negation,
{
}

/// Negating a range turns every answer around.
pub proof fn lemma_negation_turns_around(th: Threshold, value: Binary64)
    ensures
        alerts(Threshold { negation: !th.negation, ..th }, value) == !alerts(th, value),
{
}

/// A range that was read from a text does not have its start above its
/// end, and a lone value gives a range from zero to a value above zero.
pub proof fn lemma_read_ranges_are_ordered(t: Seq<char>)
    requires
        threshold_of(t) is Ok,
    ensures
        !bits_lt(threshold_of(t)->Ok_0.end.bits, threshold_of(t)->Ok_0.start.bits),
{
}

} // verus!
