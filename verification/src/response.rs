//! Answers of the device, taken into a collection.
//!
//! An answer is a list of variables, each an object identifier in dotted
//! form with a value. Numbers are gathered into vectors and texts into
//! lists of strings, under the name that the naming rule gives them.

use crate::ast::{texts, ExprResult, Value};
use crate::number::{bits_neg, ieee_from_int, Binary64};
use crate::snmp::{find_key, name_bytes, Names, SnmpResult};
use crate::text::chars_of;
use vstd::prelude::*;
use vstd::string::StringExecFns;

verus! {

/// The value of a variable.
#[derive(Debug)]
pub enum ValueType {
    /// No value: the device had nothing to give.
    Absent,
    Integer(i64),
    Float(Binary64),
    String(String),
}

/// The value of a variable as mathematics.
pub enum ValueView {
    Absent,
    Integer(i64),
    Float(Binary64),
    Text(Seq<char>),
}

impl View for ValueType {
    type V = ValueView;

    open spec fn view(&self) -> ValueView {
        match self {
            ValueType::Absent => ValueView::Absent,
            ValueType::Integer(i) => ValueView::Integer(*i),
            ValueType::Float(f) => ValueView::Float(*f),
            ValueType::String(s) => ValueView::Text(s@),
        }
    }
}

/// Why an answer could not be taken in.
#[derive(Debug, Clone, Copy, PartialEq, Eq)]
pub enum ResponseError {
    /// A name that is no dotted list of numbers.
    BadObjectIdentifier,
    /// A variable without a value.
    NoValue,
    /// A number where texts are gathered, or a text where numbers are.
    KindMismatch,
    /// A variable for which no name is given.
    Unnamed,
}

/// The number nearest to a signed integer.
pub open spec fn integer_value(i: i64) -> Binary64 {
    if i >= 0 {
        Binary64 { bits: ieee_from_int(i as u64) }
    } else {
        Binary64 { bits: bits_neg(ieee_from_int((-i) as u64)) }
    }
}

/// The number nearest to a signed integer.
pub fn integer_to_number(i: i64) -> (r: Binary64)
    ensures
        r == integer_value(i),
{
    if i >= 0 {
        Binary64::from_int(i as u64)
    } else if i == i64::MIN {
        Binary64::from_int(0x8000_0000_0000_0000u64).negated()
    } else {
        Binary64::from_int((-i) as u64).negated()
    }
}

/// The number that a value adds to a vector, if it is a number.
pub open spec fn number_in(v: ValueView) -> Option<Binary64> {
    match v {
        ValueView::Integer(i) => Some(integer_value(i)),
        ValueView::Float(f) => Some(f),
        _ => None,
    }
}

/// A list of names and values after one more value has been recorded under
/// a name. A name that is new starts a vector or a list of texts; a name
/// that is there gets the value added, which must be of its kind.
pub open spec fn recorded(items: Names, key: Seq<char>, v: ValueView) -> Result<Names, ResponseError> {
    let i = find_key(items, name_bytes(key), 0);
    match v {
        ValueView::Absent => Err(ResponseError::NoValue),
        ValueView::Text(s) => if 0 <= i < items.len() {
            match items[i].1 {
                Value::StrVector(x) => Ok(items.update(i, (items[i].0, Value::StrVector(x.push(s))))),
                _ => Err(ResponseError::KindMismatch),
            }
        } else {
            Ok(items.push((key, Value::StrVector(seq![s]))))
        },
        _ => if 0 <= i < items.len() {
            match items[i].1 {
                Value::Vector(x) => Ok(
                    items.update(i, (items[i].0, Value::Vector(x.push(number_in(v)->0)))),
                ),
                _ => Err(ResponseError::KindMismatch),
            }
        } else {
            Ok(items.push((key, Value::Vector(seq![number_in(v)->0]))))
        },
    }
}

impl SnmpResult {
    /// Records one more value under a name. On an error nothing changes.
    pub fn record(&mut self, key: String, value: ValueType) -> (r: Result<(), ResponseError>)
        ensures
            match recorded(old(self)@, key@, value@) {
                Ok(items) => r is Ok && final(self)@ == items,
                Err(e) => r == Err::<(), ResponseError>(e) && final(self)@ == old(self)@,
            },
            final(self).last_oid == old(self).last_oid,
    {
        let found = self.position(key.as_str().as_bytes());
        let ghost want = recorded(old(self)@, key@, value@);
        match value {
            ValueType::Absent => Err(ResponseError::NoValue),
            ValueType::String(s) => match found {
                Some(i) => {
                    let (name, held) = self.items.remove(i);
                    match held {
                        ExprResult::StrVector(x) => {
                            let mut x = x;
                            let ghost before = x@;
                            x.push(s);
                            assert(texts(x@) =~= texts(before).push(s@));
                            self.items.insert(i, (name, ExprResult::StrVector(x)));
                            assert(self@ =~= want->Ok_0);
                            Ok(())
                        },
                        other => {
                            self.items.insert(i, (name, other));
                            assert(self@ =~= old(self)@);
                            Err(ResponseError::KindMismatch)
                        },
                    }
                },
                None => {
                    let mut x: Vec<String> = Vec::new();
                    x.push(s);
                    assert(texts(x@) =~= seq![s@]);
                    self.items.push((key, ExprResult::StrVector(x)));
                    assert(self@ =~= want->Ok_0);
                    Ok(())
                },
            },
            other => {
                let n = match other {
                    ValueType::Integer(i) => integer_to_number(i),
                    ValueType::Float(f) => f,
                    _ => Binary64::zero(),
                };
                match found {
                    Some(i) => {
                        let (name, held) = self.items.remove(i);
                        match held {
                            ExprResult::Vector(x) => {
                                let mut x = x;
                                x.push(n);
                                self.items.insert(i, (name, ExprResult::Vector(x)));
                                assert(self@ =~= want->Ok_0);
                                Ok(())
                            },
                            held => {
                                self.items.insert(i, (name, held));
                                assert(self@ =~= old(self)@);
                                Err(ResponseError::KindMismatch)
                            },
                        }
                    },
                    None => {
                        let mut x: Vec<Binary64> = Vec::new();
                        x.push(n);
                        assert(x@ =~= seq![n]);
                        self.items.push((key, ExprResult::Vector(x)));
                        assert(self@ =~= want->Ok_0);
                        Ok(())
                    },
                }
            },
        }
    }
}

/// The digit that a character stands for.
pub open spec fn digit_of(c: char) -> nat {
    (c as nat - '0' as nat) as nat
}

/// The number that the digits from `from` to `to` spell, if they are digits
/// and the number fits in 32 bits. No digits spell zero.
pub open spec fn digits_to(t: Seq<char>, from: int, to: int) -> Option<nat>
    decreases to - from,
{
    if to <= from {
        Some(0)
    } else {
        match digits_to(t, from, to - 1) {
            Some(v) => if '0' <= t[to - 1] <= '9' && v * 10 + digit_of(t[to - 1]) <= u32::MAX {
                Some(v * 10 + digit_of(t[to - 1]))
            } else {
                None
            },
            None => None,
        }
    }
}

/// The first point from `i` on; the length of the text where there is
/// none.
pub open spec fn next_point(t: Seq<char>, i: int) -> int
    decreases t.len() - i,
{
    if 0 <= i < t.len() && t[i] != '.' {
        next_point(t, i + 1)
    } else if i < t.len() {
        i
    } else {
        t.len() as int
    }
}

/// The numbers of a dotted object identifier from `from` on: at least one
/// digit between every two points, before the first and behind the last.
pub open spec fn oid_from(t: Seq<char>, from: int) -> Option<Seq<u32>>
    decreases t.len() - from,
{
    let e = next_point(t, from);
    if 0 <= from < e <= t.len() {
        match digits_to(t, from, e) {
            None => None,
            Some(v) => if e == t.len() {
                Some(seq![v as u32])
            } else {
                match oid_from(t, e + 1) {
                    Some(rest) => Some(seq![v as u32] + rest),
                    None => None,
                }
            },
        }
    } else {
        None
    }
}

/// The numbers of a dotted object identifier.
pub open spec fn oid_of(t: Seq<char>) -> Option<Seq<u32>> {
    oid_from(t, 0)
}

/// Digits that spell no number spell none however many more follow.
proof fn lemma_digits_stay_bad(t: Seq<char>, from: int, at: int, to: int)
    requires
        at <= to,
        digits_to(t, from, at) is None,
    ensures
        digits_to(t, from, to) is None,
    decreases to - at,
{
    if at < to {
        lemma_digits_stay_bad(t, from, at, to - 1);
    }
}

/// The first point from `i` on.
fn find_point(t: &Vec<char>, i: usize) -> (r: usize)
    requires
        i <= t.len(),
    ensures
        r == next_point(t@, i as int),
        i <= r <= t.len(),
{
    let mut j: usize = i;
    while j < t.len() && t[j] != '.'
        invariant
            i <= j <= t.len(),
            next_point(t@, j as int) == next_point(t@, i as int),
        decreases t.len() - j,
    {
        j = j + 1;
    }
    j
}

/// The number that the digits from `from` to `to` spell.
fn read_digits(t: &Vec<char>, from: usize, to: usize) -> (r: Option<u32>)
    requires
        from <= to <= t.len(),
    ensures
        match r {
            Some(v) => digits_to(t@, from as int, to as int) == Some(v as nat),
            None => digits_to(t@, from as int, to as int) is None,
        },
{
    let mut acc: u64 = 0;
    let mut k: usize = from;
    while k < to
        invariant
            from <= k <= to <= t.len(),
            acc <= u32::MAX,
            digits_to(t@, from as int, k as int) == Some(acc as nat),
        decreases to - k,
    {
        let c = t[k];
        if !('0' <= c && c <= '9') {
            proof {
                lemma_digits_stay_bad(t@, from as int, k + 1, to as int);
            }
            return None;
        }
        let d = (c as u32 - '0' as u32) as u64;
        let next = acc * 10 + d;
        if next > 0xffff_ffff {
            proof {
                lemma_digits_stay_bad(t@, from as int, k + 1, to as int);
            }
            return None;
        }
        acc = next;
        k = k + 1;
    }
    Some(acc as u32)
}

/// The numbers of a dotted object identifier.
pub fn parse_oid(name: &str) -> (r: Option<Vec<u32>>)
    ensures
        match r {
            Some(v) => oid_of(name@) == Some(v@),
            None => oid_of(name@) is None,
        },
{
    let t = chars_of(name);
    let mut out: Vec<u32> = Vec::new();
    let mut from: usize = 0;
    loop
        invariant
            t@ == name@,
            from <= t.len(),
            match oid_from(t@, from as int) {
                Some(rest) => oid_of(t@) == Some(out@ + rest),
                None => oid_of(t@) is None,
            },
        decreases t.len() - from,
    {
        let e = find_point(&t, from);
        if e == from {
            return None;
        }
        match read_digits(&t, from, e) {
            None => {
                return None;
            },
            Some(v) => {
                let ghost before = out@;
                out.push(v);
                if e == t.len() {
                    assert(out@ =~= before + seq![v]);
                    return Some(out);
                }
                proof {
                    match oid_from(t@, e + 1) {
                        Some(rest) => {
                            assert(out@ + rest =~= before + (seq![v] + rest));
                        },
                        None => {},
                    }
                }
                from = e + 1;
            },
        }
    }
}

/// One variable of an answer.
#[derive(Debug)]
pub struct Variable {
    /// The object identifier in dotted form.
    pub name: String,
    pub value: ValueType,
}

/// How the values of an answer are named.
#[derive(Debug)]
pub enum Naming {
    /// Every value under one name.
    Single(String),
    /// The value at each position under the name at that position.
    ByPosition(Vec<String>),
    /// A value under `name.label` for each label whose object identifier
    /// its parent ends with.
    ByLabel(String, Vec<(String, String)>),
}

/// A collection being filled.
pub struct Filling {
    pub items: Names,
    pub last_oid: Seq<u32>,
    pub completed: bool,
}

/// Whether a text starts with another.
pub open spec fn starts_with(t: Seq<char>, head: Seq<char>) -> bool {
    head.len() <= t.len() && t.subrange(0, head.len() as int) == head
}

/// Whether a text ends with another.
pub open spec fn ends_with(t: Seq<char>, tail: Seq<char>) -> bool {
    tail.len() <= t.len() && t.subrange(t.len() - tail.len(), t.len() as int) == tail
}

/// The place of the last point before `i`; -1 where there is none.
pub open spec fn last_point(t: Seq<char>, i: int) -> int
    decreases i,
{
    if i <= 0 {
        -1
    } else if t[i - 1] == '.' {
        i - 1
    } else {
        last_point(t, i - 1)
    }
}

/// The name under which a label records.
pub open spec fn label_key(name: Seq<char>, label: Seq<char>) -> Seq<char> {
    name + seq!['.'] + label
}

/// A value recorded for the first `upto` labels: under every label whose
/// object identifier the parent ends with.
pub open spec fn recorded_by_label(
    items: Names,
    parent: Seq<char>,
    name: Seq<char>,
    labels: Seq<(String, String)>,
    v: ValueView,
    upto: int,
) -> Result<Names, ResponseError>
    decreases upto,
{
    if upto <= 0 {
        Ok(items)
    } else {
        match recorded_by_label(items, parent, name, labels, v, upto - 1) {
            Err(e) => Err(e),
            Ok(done) => if ends_with(parent, labels[upto - 1].0@) {
                recorded(done, label_key(name, labels[upto - 1].1@), v)
            } else {
                Ok(done)
            },
        }
    }
}

/// The variable at position `k` recorded as the naming rule says.
pub open spec fn recorded_as(items: Names, var: Variable, k: int, naming: Naming) -> Result<
    Names,
    ResponseError,
> {
    match naming {
        Naming::Single(n) => recorded(items, n@, var.value@),
        Naming::ByPosition(names) => if 0 <= k < names@.len() {
            recorded(items, names@[k]@, var.value@)
        } else {
            Err(ResponseError::Unnamed)
        },
        Naming::ByLabel(n, labels) => {
            let p = last_point(var.name@, var.name@.len() as int);
            if p < 0 {
                Err(ResponseError::BadObjectIdentifier)
            } else {
                recorded_by_label(
                    items,
                    var.name@.subrange(0, p),
                    n@,
                    labels@,
                    var.value@,
                    labels@.len() as int,
                )
            }
        },
    }
}

/// A collection after the variables from `k` on have been taken in. Every
/// variable leaves its object identifier as the last one seen. In a walk,
/// the first variable outside the subtree of `oid` completes the walk and
/// neither it nor what follows is recorded.
pub open spec fn absorbed(
    st: Filling,
    vars: Seq<Variable>,
    k: int,
    oid: Seq<char>,
    naming: Naming,
    walk: bool,
) -> Result<Filling, ResponseError>
    decreases vars.len() - k,
{
    if k < 0 || k >= vars.len() {
        Ok(st)
    } else {
        match oid_of(vars[k].name@) {
            None => Err(ResponseError::BadObjectIdentifier),
            Some(o) => if walk && !starts_with(vars[k].name@, oid) {
                Ok(Filling { last_oid: o, completed: true, ..st })
            } else {
                match recorded_as(st.items, vars[k], k, naming) {
                    Err(e) => Err(e),
                    Ok(items) => absorbed(
                        Filling { items, last_oid: o, ..st },
                        vars,
                        k + 1,
                        oid,
                        naming,
                        walk,
                    ),
                }
            },
        }
    }
}

/// Whether a text starts with another.
pub fn has_prefix(t: &Vec<char>, head: &Vec<char>) -> (r: bool)
    ensures
        r == starts_with(t@, head@),
{
    if head.len() > t.len() {
        return false;
    }
    let mut i: usize = 0;
    while i < head.len()
        invariant
            i <= head.len() <= t.len(),
            t@.subrange(0, i as int) == head@.subrange(0, i as int),
        decreases head.len() - i,
    {
        if t[i] != head[i] {
            assert(t@.subrange(0, head.len() as int)[i as int] != head@[i as int]);
            return false;
        }
        assert(t@.subrange(0, i + 1) =~= t@.subrange(0, i as int).push(t@[i as int]));
        assert(head@.subrange(0, i + 1) =~= head@.subrange(0, i as int).push(head@[i as int]));
        i = i + 1;
    }
    assert(head@.subrange(0, head.len() as int) =~= head@);
    true
}

/// Whether the first `end` characters of a text end with another text.
fn has_suffix(t: &Vec<char>, end: usize, tail: &Vec<char>) -> (r: bool)
    requires
        end <= t.len(),
    ensures
        r == ends_with(t@.subrange(0, end as int), tail@),
{
    let ghost part = t@.subrange(0, end as int);
    if tail.len() > end {
        return false;
    }
    let base = end - tail.len();
    let mut i: usize = 0;
    while i < tail.len()
        invariant
            i <= tail.len() <= end <= t.len(),
            base == end - tail.len(),
            part == t@.subrange(0, end as int),
            part.subrange(base as int, base + i) == tail@.subrange(0, i as int),
        decreases tail.len() - i,
    {
        if t[base + i] != tail[i] {
            assert(part.subrange(base as int, end as int)[i as int] != tail@[i as int]);
            return false;
        }
        assert(part.subrange(base as int, base + i + 1) =~= part.subrange(
            base as int,
            base + i,
        ).push(part[base + i]));
        assert(tail@.subrange(0, i + 1) =~= tail@.subrange(0, i as int).push(tail@[i as int]));
        i = i + 1;
    }
    assert(tail@.subrange(0, tail.len() as int) =~= tail@);
    true
}

/// The place of the last point of a text.
pub fn find_last_point(t: &Vec<char>) -> (r: Option<usize>)
    ensures
        match r {
            Some(p) => p == last_point(t@, t@.len() as int) && p < t@.len(),
            None => last_point(t@, t@.len() as int) < 0,
        },
{
    let mut i: usize = t.len();
    while i > 0
        invariant
            i <= t.len(),
            last_point(t@, i as int) == last_point(t@, t@.len() as int),
        decreases i,
    {
        if t[i - 1] == '.' {
            return Some(i - 1);
        }
        i = i - 1;
    }
    None
}

impl ValueType {
    /// A copy of the value.
    pub fn duplicate(&self) -> (r: ValueType)
        ensures
            r@ == self@,
    {
        match self {
            ValueType::Absent => ValueType::Absent,
            ValueType::Integer(i) => ValueType::Integer(*i),
            ValueType::Float(f) => ValueType::Float(*f),
            ValueType::String(s) => ValueType::String(s.clone()),
        }
    }
}

/// A copy of a list of names and values.
pub fn copy_items(items: &Vec<(String, ExprResult)>) -> (r: Vec<(String, ExprResult)>)
    ensures
        r@.len() == items@.len(),
        forall|i: int| 0 <= i < r@.len() ==> (#[trigger] r@[i]).0@ == items@[i].0@ && r@[i].1@ == items@[i].1@,
{
    let mut out: Vec<(String, ExprResult)> = Vec::with_capacity(items.len());
    let mut i: usize = 0;
    while i < items.len()
        invariant
            i <= items.len(),
            out@.len() == i,
            forall|k: int| 0 <= k < i ==> (#[trigger] out@[k]).0@ == items@[k].0@ && out@[k].1@ == items@[k].1@,
        decreases items.len() - i,
    {
        out.push((items[i].0.clone(), items[i].1.duplicate()));
        i = i + 1;
    }
    out
}

impl SnmpResult {
    /// Records a value under every label whose object identifier the
    /// parent of the variable's name ends with.
    fn record_by_label(
        &mut self,
        name_chars: &Vec<char>,
        parent_end: usize,
        name: &String,
        labels: &Vec<(String, String)>,
        value: &ValueType,
    ) -> (r: Result<(), ResponseError>)
        requires
            parent_end <= name_chars@.len(),
        ensures
            match recorded_by_label(
                old(self)@,
                name_chars@.subrange(0, parent_end as int),
                name@,
                labels@,
                value@,
                labels@.len() as int,
            ) {
                Ok(items) => r is Ok && final(self)@ == items,
                Err(e) => r == Err::<(), ResponseError>(e),
            },
    {
        let ghost parent = name_chars@.subrange(0, parent_end as int);
        let mut j: usize = 0;
        while j < labels.len()
            invariant
                j <= labels.len(),
                parent_end <= name_chars@.len(),
                parent == name_chars@.subrange(0, parent_end as int),
                recorded_by_label(old(self)@, parent, name@, labels@, value@, j as int) == Ok::<
                    Names,
                    ResponseError,
                >(self@),
            decreases labels.len() - j,
        {
            let suffix = chars_of(labels[j].0.as_str());
            if has_suffix(name_chars, parent_end, &suffix) {
                proof {
                    reveal_strlit(".");
                }
                let mut key = name.clone();
                key.append(".");
                key.append(labels[j].1.as_str());
                assert(key@ =~= label_key(name@, labels@[j as int].1@));
                match self.record(key, value.duplicate()) {
                    Ok(()) => {},
                    Err(e) => {
                        proof {
                            lemma_labels_fail(
                                old(self)@,
                                parent,
                                name@,
                                labels@,
                                value@,
                                j + 1,
                                labels@.len() as int,
                            );
                        }
                        return Err(e);
                    },
                }
            }
            j = j + 1;
        }
        Ok(())
    }

    /// Records the variable at position `k` as the naming rule says.
    fn record_as(&mut self, var: &Variable, k: usize, naming: &Naming) -> (r: Result<
        (),
        ResponseError,
    >)
        ensures
            match recorded_as(old(self)@, *var, k as int, *naming) {
                Ok(items) => r is Ok && final(self)@ == items,
                Err(e) => r == Err::<(), ResponseError>(e),
            },
    {
        match naming {
            Naming::Single(n) => self.record(n.clone(), var.value.duplicate()),
            Naming::ByPosition(names) => {
                if k < names.len() {
                    self.record(names[k].clone(), var.value.duplicate())
                } else {
                    Err(ResponseError::Unnamed)
                }
            },
            Naming::ByLabel(n, labels) => {
                let t = chars_of(var.name.as_str());
                match find_last_point(&t) {
                    None => Err(ResponseError::BadObjectIdentifier),
                    Some(p) => self.record_by_label(&t, p, n, labels, &var.value),
                }
            },
        }
    }
}

/// A failure at one label is the failure of all.
proof fn lemma_labels_fail(
    items: Names,
    parent: Seq<char>,
    name: Seq<char>,
    labels: Seq<(String, String)>,
    v: ValueView,
    at: int,
    upto: int,
)
    requires
        at <= upto,
        recorded_by_label(items, parent, name, labels, v, at) is Err,
    ensures
        recorded_by_label(items, parent, name, labels, v, upto) == recorded_by_label(
            items,
            parent,
            name,
            labels,
            v,
            at,
        ),
    decreases upto - at,
{
    if at < upto {
        lemma_labels_fail(items, parent, name, labels, v, at, upto - 1);
    }
}

/// A copy of a list of numbers.
pub fn copy_oid(v: &Vec<u32>) -> (r: Vec<u32>)
    ensures
        r@ == v@,
{
    let mut out: Vec<u32> = Vec::with_capacity(v.len());
    let mut i: usize = 0;
    while i < v.len()
        invariant
            i <= v.len(),
            out@ == v@.take(i as int),
        decreases v.len() - i,
    {
        out.push(v[i]);
        assert(out@ =~= v@.take(i + 1));
        i = i + 1;
    }
    assert(v@.take(v.len() as int) =~= v@);
    out
}

impl SnmpResult {
    /// Takes the variables of one answer into the collection and tells
    /// whether the walk is complete. On an error the collection may hold
    /// some of the variables.
    fn absorb_all(&mut self, vars: &Vec<Variable>, root: &Vec<char>, naming: &Naming, walk: bool) -> (r:
        Result<bool, ResponseError>)
        ensures
            match absorbed(
                Filling { items: old(self)@, last_oid: old(self).last_oid@, completed: false },
                vars@,
                0,
                root@,
                *naming,
                walk,
            ) {
                Ok(f) => r == Ok::<bool, ResponseError>(f.completed) && final(self)@ == f.items
                    && final(self).last_oid@ == f.last_oid,
                Err(e) => r == Err::<bool, ResponseError>(e),
            },
    {
        let ghost start = Filling {
            items: old(self)@,
            last_oid: old(self).last_oid@,
            completed: false,
        };
        let mut k: usize = 0;
        while k < vars.len()
            invariant
                k <= vars.len(),
                start == (Filling {
                    items: old(self)@,
                    last_oid: old(self).last_oid@,
                    completed: false,
                }),
                absorbed(
                    Filling { items: self@, last_oid: self.last_oid@, completed: false },
                    vars@,
                    k as int,
                    root@,
                    *naming,
                    walk,
                ) == absorbed(start, vars@, 0, root@, *naming, walk),
            decreases vars.len() - k,
        {
            let var = &vars[k];
            let numbers = match parse_oid(var.name.as_str()) {
                None => {
                    return Err(ResponseError::BadObjectIdentifier);
                },
                Some(o) => o,
            };
            if walk {
                let t = chars_of(var.name.as_str());
                if !has_prefix(&t, root) {
                    self.last_oid = numbers;
                    return Ok(true);
                }
            }
            match self.record_as(var, k, naming) {
                Err(e) => {
                    return Err(e);
                },
                Ok(()) => {},
            }
            self.last_oid = numbers;
            k = k + 1;
        }
        Ok(false)
    }

    /// Takes the variables of one answer into the collection and tells
    /// whether the walk is complete. On an error nothing changes.
    pub fn absorb(&mut self, vars: &Vec<Variable>, oid: &str, naming: &Naming, walk: bool) -> (r:
        Result<bool, ResponseError>)
        ensures
            match absorbed(
                Filling { items: old(self)@, last_oid: old(self).last_oid@, completed: false },
                vars@,
                0,
                oid@,
                *naming,
                walk,
            ) {
                Ok(f) => r == Ok::<bool, ResponseError>(f.completed) && final(self)@ == f.items
                    && final(self).last_oid@ == f.last_oid,
                Err(e) => r == Err::<bool, ResponseError>(e) && final(self)@ == old(self)@
                    && final(self).last_oid@ == old(self).last_oid@,
            },
    {
        let root = chars_of(oid);
        let mut work = SnmpResult {
            items: copy_items(&self.items),
            last_oid: copy_oid(&self.last_oid),
        };
        assert(work@ =~= self@);
        match work.absorb_all(vars, &root, naming, walk) {
            Ok(done) => {
                *self = work;
                Ok(done)
            },
            Err(e) => Err(e),
        }
    }
}

} // verus!
