//! Text templates: literal text and `{name}` placeholders, joined from left
//! to right into a string or a list of strings.

use crate::ast::{texts, EvalError, ExprResult, Value};
use crate::format::{float_string, float_text};
use crate::number::Binary64;
use crate::snmp::{find_value, lookup, namespaces, Names, SnmpResult};
use crate::text::chars_of;
use vstd::prelude::*;
use vstd::string::{StrSliceExecFns, StringExecFns};

verus! {

/// The numbers of a list, each written with two decimals and trimmed.
pub open spec fn number_texts(v: Seq<Binary64>) -> Seq<Seq<char>> {
    Seq::new(v.len(), |i: int| float_text(v[i].bits))
}

/// A value as text: numbers are written out, anything else stays.
pub open spec fn rendered(v: Value) -> Value {
    match v {
        Value::Number(n) => Value::Str(float_text(n.bits)),
        Value::Vector(x) => Value::StrVector(number_texts(x)),
        other => other,
    }
}

/// The entry at `i`, or the empty text behind the end of the list.
pub open spec fn padded(v: Seq<Seq<char>>, i: int) -> Seq<char> {
    if 0 <= i < v.len() {
        v[i]
    } else {
        Seq::<char>::empty()
    }
}

/// A text put in front of every entry.
pub open spec fn prefixed(s: Seq<char>, v: Seq<Seq<char>>) -> Seq<Seq<char>> {
    Seq::new(v.len(), |i: int| s + v[i])
}

/// A text put behind every entry.
pub open spec fn suffixed(v: Seq<Seq<char>>, s: Seq<char>) -> Seq<Seq<char>> {
    Seq::new(v.len(), |i: int| v[i] + s)
}

/// Two lists joined entry by entry, the shorter one padded with empty
/// texts.
pub open spec fn zipped(v: Seq<Seq<char>>, w: Seq<Seq<char>>) -> Seq<Seq<char>> {
    Seq::new(
        if v.len() >= w.len() {
            v.len()
        } else {
            w.len()
        },
        |i: int| padded(v, i) + padded(w, i),
    )
}

/// What has been put together so far, joined with one more value. Nothing
/// yet takes the shape of the value; texts are concatenated; a text and a
/// list give a list; numbers are written out first. Anything else is a type
/// error.
pub open spec fn join_values(a: Value, b: Value) -> Result<Value, EvalError> {
    match (a, rendered(b)) {
        (Value::Empty, Value::Str(s)) => Ok(Value::Str(s)),
        (Value::Empty, Value::StrVector(v)) => Ok(Value::StrVector(v)),
        (Value::Str(s), Value::Str(t)) => Ok(Value::Str(s + t)),
        (Value::Str(s), Value::StrVector(v)) => Ok(Value::StrVector(prefixed(s, v))),
        (Value::StrVector(v), Value::Str(t)) => Ok(Value::StrVector(suffixed(v, t))),
        (Value::StrVector(v), Value::StrVector(w)) => Ok(Value::StrVector(zipped(v, w))),
        _ => Err(EvalError::TypeMismatch),
    }
}

/// Two strings, one behind the other.
pub fn concat(a: &String, b: &String) -> (r: String)
    ensures
        r@ == a@ + b@,
{
    let mut out = a.clone();
    out.append(b.as_str());
    out
}

/// The numbers of a list, each written out.
pub fn render_numbers(v: &Vec<Binary64>) -> (r: Vec<String>)
    ensures
        texts(r@) == number_texts(v@),
{
    let mut out: Vec<String> = Vec::with_capacity(v.len());
    let mut i: usize = 0;
    while i < v.len()
        invariant
            i <= v.len(),
            out@.len() == i,
            forall|k: int| 0 <= k < i ==> (#[trigger] out@[k])@ == float_text(v@[k].bits),
        decreases v.len() - i,
    {
        out.push(float_string(&v[i]));
        i = i + 1;
    }
    assert(texts(out@) =~= number_texts(v@));
    out
}

/// A value as text.
pub fn render(v: &ExprResult) -> (r: ExprResult)
    ensures
        r@ == rendered(v@),
{
    match v {
        ExprResult::Number(n) => ExprResult::Str(float_string(n)),
        ExprResult::Vector(x) => ExprResult::StrVector(render_numbers(x)),
        other => other.duplicate(),
    }
}

/// A text put in front of every entry.
pub fn prefix_all(s: &String, v: &Vec<String>) -> (r: Vec<String>)
    ensures
        texts(r@) == prefixed(s@, texts(v@)),
{
    let mut out: Vec<String> = Vec::with_capacity(v.len());
    let mut i: usize = 0;
    while i < v.len()
        invariant
            i <= v.len(),
            out@.len() == i,
            forall|k: int| 0 <= k < i ==> (#[trigger] out@[k])@ == s@ + v@[k]@,
        decreases v.len() - i,
    {
        out.push(concat(s, &v[i]));
        i = i + 1;
    }
    assert(texts(out@) =~= prefixed(s@, texts(v@)));
    out
}

/// A text put behind every entry.
pub fn suffix_all(v: &Vec<String>, s: &String) -> (r: Vec<String>)
    ensures
        texts(r@) == suffixed(texts(v@), s@),
{
    let mut out: Vec<String> = Vec::with_capacity(v.len());
    let mut i: usize = 0;
    while i < v.len()
        invariant
            i <= v.len(),
            out@.len() == i,
            forall|k: int| 0 <= k < i ==> (#[trigger] out@[k])@ == v@[k]@ + s@,
        decreases v.len() - i,
    {
        out.push(concat(&v[i], s));
        i = i + 1;
    }
    assert(texts(out@) =~= suffixed(texts(v@), s@));
    out
}

/// Two lists joined entry by entry.
pub fn zip_all(v: &Vec<String>, w: &Vec<String>) -> (r: Vec<String>)
    ensures
        texts(r@) == zipped(texts(v@), texts(w@)),
{
    let n = if v.len() >= w.len() { v.len() } else { w.len() };
    let mut out: Vec<String> = Vec::with_capacity(n);
    let mut i: usize = 0;
    while i < n
        invariant
            i <= n,
            n == zipped(texts(v@), texts(w@)).len(),
            out@.len() == i,
            forall|k: int| 0 <= k < i ==> (#[trigger] out@[k])@ == padded(texts(v@), k) + padded(texts(w@), k),
        decreases n - i,
    {
        let left = if i < v.len() { v[i].clone() } else { String::new() };
        let joined = if i < w.len() { concat(&left, &w[i]) } else { left };
        assert(joined@ =~= padded(texts(v@), i as int) + padded(texts(w@), i as int));
        out.push(joined);
        i = i + 1;
    }
    assert(texts(out@) =~= zipped(texts(v@), texts(w@)));
    out
}

/// What two values give when joined.
pub fn joined(a: &ExprResult, b: &ExprResult) -> (r: Result<ExprResult, EvalError>)
    ensures
        match join_values(a@, b@) {
            Ok(v) => r is Ok && r->Ok_0@ == v,
            Err(e) => r is Err && r->Err_0 == e,
        },
{
    let other = render(b);
    match a {
        ExprResult::Empty => match other {
            ExprResult::Str(s) => Ok(ExprResult::Str(s)),
            ExprResult::StrVector(v) => Ok(ExprResult::StrVector(v)),
            _ => Err(EvalError::TypeMismatch),
        },
        ExprResult::Str(s) => match other {
            ExprResult::Str(t) => Ok(ExprResult::Str(concat(s, &t))),
            ExprResult::StrVector(v) => Ok(ExprResult::StrVector(prefix_all(s, &v))),
            _ => Err(EvalError::TypeMismatch),
        },
        ExprResult::StrVector(v) => match other {
            ExprResult::Str(t) => Ok(ExprResult::StrVector(suffix_all(v, &t))),
            ExprResult::StrVector(w) => Ok(ExprResult::StrVector(zip_all(v, &w))),
            _ => Err(EvalError::TypeMismatch),
        },
        _ => Err(EvalError::TypeMismatch),
    }
}

impl ExprResult {
    /// Joins one more value to what has been put together so far. On a type
    /// error nothing changes.
    pub fn join(&mut self, other: &ExprResult) -> (r: Result<(), EvalError>)
        ensures
            match join_values(old(self)@, other@) {
                Ok(v) => r is Ok && final(self)@ == v,
                Err(e) => r is Err && r->Err_0 == e && final(self)@ == old(self)@,
            },
    {
        match joined(self, other) {
            Ok(v) => {
                *self = v;
                Ok(())
            },
            Err(e) => Err(e),
        }
    }
}

/// A character that may start a placeholder's name.
pub open spec fn is_name_start(c: char) -> bool {
    ('a' <= c <= 'z') || ('A' <= c <= 'Z') || c == '_'
}

/// A character that may continue a placeholder's name.
pub open spec fn is_name_part(c: char) -> bool {
    is_name_start(c) || ('0' <= c <= '9') || c == '.'
}

/// The end of the longest run of name characters from `i` on.
pub open spec fn name_end(t: Seq<char>, i: int) -> int
    decreases t.len() - i,
{
    if 0 <= i < t.len() && is_name_part(t[i]) {
        name_end(t, i + 1)
    } else {
        i
    }
}

/// Whether a placeholder starts at `i`: an opening brace, a name, a closing
/// brace.
pub open spec fn placeholder_at(t: Seq<char>, i: int) -> bool {
    &&& 0 <= i
    &&& i + 1 < t.len()
    &&& t[i] == '{'
    &&& is_name_start(t[i + 1])
    &&& name_end(t, i + 2) < t.len()
    &&& t[name_end(t, i + 2)] == '}'
}

/// Where the placeholder that starts at `i` ends.
pub open spec fn placeholder_end(t: Seq<char>, i: int) -> int {
    name_end(t, i + 2) + 1
}

/// The start of the first placeholder from `i` on; the length of the text
/// where there is none.
pub open spec fn next_placeholder(t: Seq<char>, i: int) -> int
    decreases t.len() - i,
{
    if 0 <= i < t.len() {
        if placeholder_at(t, i) {
            i
        } else {
            next_placeholder(t, i + 1)
        }
    } else {
        t.len() as int
    }
}

/// The name between the braces of the placeholder that starts at `i`, in
/// bytes.
pub open spec fn placeholder_name(t: Seq<char>, i: int) -> Seq<u8> {
    Seq::new((placeholder_end(t, i) - i - 2) as nat, |k: int| t[i + 1 + k] as u8)
}

/// A join on what may already have failed.
pub open spec fn join_onto(acc: Result<Value, EvalError>, v: Value) -> Result<Value, EvalError> {
    match acc {
        Ok(a) => join_values(a, v),
        Err(e) => Err(e),
    }
}

/// What the placeholder at `a` adds: the value of its name, or nothing
/// where no collection holds the name.
pub open spec fn join_placeholder(
    acc: Result<Value, EvalError>,
    t: Seq<char>,
    a: int,
    collect: Seq<Names>,
) -> Result<Value, EvalError> {
    match lookup(collect, placeholder_name(t, a)) {
        Some(v) => join_onto(acc, v),
        None => acc,
    }
}

/// What the literal text between `from` and `to` adds: itself, or nothing
/// where it is empty.
pub open spec fn join_literal(acc: Result<Value, EvalError>, t: Seq<char>, from: int, to: int) -> Result<
    Value,
    EvalError,
> {
    if to > from {
        join_onto(acc, Value::Str(t.subrange(from, to)))
    } else {
        acc
    }
}

/// A template from `from` on, joined onto what came before: up to the next
/// placeholder the literal text, then the placeholder's value, and so on;
/// behind the last placeholder the rest of the text, even where it is
/// empty.
pub open spec fn expand(
    t: Seq<char>,
    collect: Seq<Names>,
    from: int,
    acc: Result<Value, EvalError>,
) -> Result<Value, EvalError>
    decreases t.len() - from,
{
    let a = next_placeholder(t, from);
    if 0 <= from <= a < t.len() && from < placeholder_end(t, a) <= t.len() {
        expand(
            t,
            collect,
            placeholder_end(t, a),
            join_placeholder(join_literal(acc, t, from, a), t, a, collect),
        )
    } else if 0 <= from <= t.len() {
        join_onto(acc, Value::Str(t.subrange(from, t.len() as int)))
    } else {
        acc
    }
}

/// What a template evaluates to.
pub open spec fn eval_template(t: Seq<char>, collect: Seq<Names>) -> Result<Value, EvalError> {
    expand(t, collect, 0, Ok(Value::Empty))
}

/// The end of the longest run of name characters from `i` on.
fn scan_name(t: &Vec<char>, i: usize) -> (j: usize)
    requires
        i <= t.len(),
    ensures
        j == name_end(t@, i as int),
        i <= j <= t.len(),
{
    let mut j: usize = i;
    while j < t.len() && (('a' <= t[j] && t[j] <= 'z') || ('A' <= t[j] && t[j] <= 'Z') || t[j]
        == '_' || ('0' <= t[j] && t[j] <= '9') || t[j] == '.')
        invariant
            i <= j <= t.len(),
            name_end(t@, j as int) == name_end(t@, i as int),
        decreases t.len() - j,
    {
        j = j + 1;
    }
    j
}

/// Where the placeholder that starts at `i` ends, if one starts there.
fn placeholder_from(t: &Vec<char>, i: usize) -> (r: Option<usize>)
    requires
        i < t.len(),
    ensures
        match r {
            Some(e) => placeholder_at(t@, i as int) && e == placeholder_end(t@, i as int) && i + 2
                < e <= t.len(),
            None => !placeholder_at(t@, i as int),
        },
{
    if t[i] != '{' || i + 1 >= t.len() {
        return None;
    }
    let c = t[i + 1];
    if !(('a' <= c && c <= 'z') || ('A' <= c && c <= 'Z') || c == '_') {
        return None;
    }
    let e = scan_name(t, i + 2);
    if e < t.len() && t[e] == '}' {
        Some(e + 1)
    } else {
        None
    }
}

/// The first placeholder from `i` on: where it starts and where it ends.
fn find_placeholder(t: &Vec<char>, i: usize) -> (r: Option<(usize, usize)>)
    requires
        i <= t.len(),
    ensures
        match r {
            Some((a, e)) => a == next_placeholder(t@, i as int) && a < t.len() && e
                == placeholder_end(t@, a as int) && i <= a && a + 2 < e <= t.len(),
            None => next_placeholder(t@, i as int) == t.len(),
        },
{
    let mut a: usize = i;
    while a < t.len()
        invariant
            i <= a <= t.len(),
            next_placeholder(t@, a as int) == next_placeholder(t@, i as int),
        decreases t.len() - a,
    {
        match placeholder_from(t, a) {
            Some(e) => {
                return Some((a, e));
            },
            None => {},
        }
        a = a + 1;
    }
    None
}

/// The name between the braces of a placeholder, in bytes.
fn name_of(t: &Vec<char>, a: usize, e: usize) -> (r: Vec<u8>)
    requires
        a + 2 <= e <= t.len(),
    ensures
        r@ == Seq::new((e - a - 2) as nat, |k: int| t@[a + 1 + k] as u8),
{
    let mut out: Vec<u8> = Vec::new();
    let mut i: usize = a + 1;
    while i < e - 1
        invariant
            a + 1 <= i <= e - 1,
            e <= t.len(),
            out@.len() == i - a - 1,
            forall|k: int| 0 <= k < out@.len() ==> out@[k] == t@[a + 1 + k] as u8,
        decreases e - i,
    {
        out.push(t[i] as u8);
        i = i + 1;
    }
    assert(out@ =~= Seq::new((e - a - 2) as nat, |k: int| t@[a + 1 + k] as u8));
    out
}

/// Evaluates a template: literal text and the values of its placeholders,
/// joined from left to right. A placeholder whose name no collection holds
/// adds nothing.
pub fn eval_template_text(template: &str, collect: &Vec<SnmpResult>) -> (r: Result<
    ExprResult,
    EvalError,
>)
    ensures
        match eval_template(template@, namespaces(collect@)) {
            Ok(v) => r is Ok && r->Ok_0@ == v,
            Err(e) => r is Err && r->Err_0 == e,
        },
{
    let chars = chars_of(template);
    let n = chars.len();
    let mut result = ExprResult::Empty;
    let mut from: usize = 0;
    loop
        invariant
            chars@ == template@,
            n == chars@.len(),
            from <= n,
            expand(template@, namespaces(collect@), from as int, Ok(result@)) == eval_template(
                template@,
                namespaces(collect@),
            ),
        decreases n - from,
    {
        match find_placeholder(&chars, from) {
            Some((a, e)) => {
                if a > from {
                    let literal = ExprResult::Str(
                        String::from_str(template.substring_char(from, a)),
                    );
                    match result.join(&literal) {
                        Ok(()) => {},
                        Err(err) => {
                            proof {
                                lemma_failed(template@, namespaces(collect@), e as int, err);
                            }
                            return Err(err);
                        },
                    }
                }
                let name = name_of(&chars, a, e);
                match find_value(collect, name.as_slice()) {
                    Some(v) => {
                        match result.join(v) {
                            Ok(()) => {},
                            Err(err) => {
                                proof {
                                    lemma_failed(template@, namespaces(collect@), e as int, err);
                                }
                                return Err(err);
                            },
                        }
                    },
                    None => {},
                }
                from = e;
            },
            None => {
                let literal = ExprResult::Str(String::from_str(template.substring_char(from, n)));
                return match result.join(&literal) {
                    Ok(()) => Ok(result),
                    Err(err) => Err(err),
                };
            },
        }
    }
}

/// Once a join has failed, the rest of the template changes nothing.
proof fn lemma_failed(t: Seq<char>, collect: Seq<Names>, from: int, e: EvalError)
    ensures
        expand(t, collect, from, Err(e)) == Err::<Value, EvalError>(e),
    decreases t.len() - from,
{
    let a = next_placeholder(t, from);
    if 0 <= from <= a < t.len() && from < placeholder_end(t, a) <= t.len() {
        lemma_failed(t, collect, placeholder_end(t, a), e);
    }
}

/// Whether a value is a text or a list of texts.
pub open spec fn is_textual(v: Value) -> bool {
    v is Str || v is StrVector
}

/// A join that succeeds gives a text or a list of texts, and a list
/// whenever one of the two was a list or a vector.
pub proof fn lemma_join_kind(a: Value, b: Value)
    requires
        join_values(a, b) is Ok,
    ensures
        is_textual(join_values(a, b)->Ok_0),
        join_values(a, b)->Ok_0 is StrVector <==> (a is StrVector || b is StrVector || b is Vector),
{
}

/// A template that can be evaluated gives a text or a list of texts.
pub proof fn lemma_template_kind(t: Seq<char>, collect: Seq<Names>)
    requires
        eval_template(t, collect) is Ok,
    ensures
        is_textual(eval_template(t, collect)->Ok_0),
{
    lemma_expand_kind(t, collect, 0, Ok(Value::Empty));
}

proof fn lemma_expand_kind(t: Seq<char>, collect: Seq<Names>, from: int, acc: Result<Value, EvalError>)
    requires
        0 <= from <= t.len(),
        expand(t, collect, from, acc) is Ok,
    ensures
        is_textual(expand(t, collect, from, acc)->Ok_0),
    decreases t.len() - from,
{
    let a = next_placeholder(t, from);
    if 0 <= from <= a < t.len() && from < placeholder_end(t, a) <= t.len() {
        lemma_expand_kind(
            t,
            collect,
            placeholder_end(t, a),
            join_placeholder(join_literal(acc, t, from, a), t, a, collect),
        );
    }
}

} // verus!
