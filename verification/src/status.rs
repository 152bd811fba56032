//! The four states of a check and how they rank.

use vstd::prelude::*;

verus! {

#[derive(Debug, Copy, Clone, PartialEq, Eq, Structural)]
pub enum Status {
    Okay,
    Warning,
    Critical,
    Unknown,
}

/// How bad a status is: `Okay`, then `Warning`, then `Critical`, then
/// `Unknown`, a check that could not be made being the worst.
pub open spec fn severity(s: Status) -> int {
    match s {
        Status::Okay => 0,
        Status::Warning => 1,
        Status::Critical => 2,
        Status::Unknown => 3,
    }
}

/// The worse of two states; the second where they rank the same.
pub open spec fn worse_of(a: Status, b: Status) -> Status {
    if severity(a) > severity(b) {
        a
    } else {
        b
    }
}

/// The code that a plugin exits with for a status.
pub open spec fn exit_code_of(s: Status) -> int {
    match s {
        Status::Okay => 0,
        Status::Warning => 1,
        Status::Critical => 2,
        Status::Unknown => 3,
    }
}

impl Status {
    /// The severity as a number.
    pub fn rank(&self) -> (r: u8)
        ensures
            r == severity(*self),
    {
        match self {
            Status::Okay => 0,
            Status::Warning => 1,
            Status::Critical => 2,
            Status::Unknown => 3,
        }
    }

    /// The name in capitals.
    pub fn as_str(&self) -> (r: &'static str)
        ensures
            r@ == match *self {
                Status::Okay => "OK"@,
                Status::Warning => "WARNING"@,
                Status::Critical => "CRITICAL"@,
                Status::Unknown => "UNKNOWN"@,
            },
    {
        match *self {
            Status::Okay => "OK",
            Status::Warning => "WARNING",
            Status::Critical => "CRITICAL",
            Status::Unknown => "UNKNOWN",
        }
    }

    /// Whether this status is at least as bad as another.
    pub fn is_worse_than(&self, other: Status) -> (r: bool)
        ensures
            r == (severity(*self) >= severity(other)),
    {
        self.rank() >= other.rank()
    }

    /// The code that a plugin exits with: 0, 1, 2, 3.
    pub fn exit_code(&self) -> (r: i32)
        ensures
            r == exit_code_of(*self),
    {
        match self {
            Status::Okay => 0,
            Status::Warning => 1,
            Status::Critical => 2,
            Status::Unknown => 3,
        }
    }
}

/// The worse of two states.
pub fn worst(a: Status, b: Status) -> (r: Status)
    ensures
        r == worse_of(a, b),
{
    if a.rank() > b.rank() {
        a
    } else {
        b
    }
}

/// The ranking is a total order on the four states: two states that rank
/// the same are the same state.
pub proof fn lemma_severity_total(a: Status, b: Status)
    ensures
        severity(a) == severity(b) ==> a == b,
        severity(a) <= severity(b) || severity(b) <= severity(a),
        0 <= severity(a) <= 3,
{
}

/// The worse of two states is one of them, is at least as bad as both, and
/// does not depend on their order; taking the worse is associative.
pub proof fn lemma_worse_of(a: Status, b: Status, c: Status)
    ensures
        worse_of(a, b) == a || worse_of(a, b) == b,
        severity(worse_of(a, b)) >= severity(a),
        severity(worse_of(a, b)) >= severity(b),
        worse_of(a, b) == worse_of(b, a),
        worse_of(a, a) == a,
        worse_of(worse_of(a, b), c) == worse_of(a, worse_of(b, c)),
{
}

} // verus!
