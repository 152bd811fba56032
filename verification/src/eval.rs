//! Evaluation of formulas against collected values.

use crate::ast::{
    arith, copy_numbers, ArithOp, EvalError, Expr, ExprResult, Func, Tree, Value,
};
use crate::number::{
    bits_lt, bits_nan, bits_neg, ieee_add, ieee_div, ieee_from_int, Binary64, INFINITY_BITS,
    NAN_BITS,
};
use crate::snmp::{find_value, lookup, namespaces, Names, SnmpResult};
use vstd::prelude::*;

verus! {

/// The sum of the entries that are numbers, added from the left to zero.
pub open spec fn sum_of_numbers(v: Seq<Binary64>) -> Binary64
    decreases v.len(),
{
    if v.len() == 0 {
        Binary64 { bits: 0 }
    } else {
        let s = sum_of_numbers(v.drop_last());
        if bits_nan(v.last().bits) {
            s
        } else {
            Binary64 { bits: ieee_add(s.bits, v.last().bits) }
        }
    }
}

/// How many entries are numbers.
pub open spec fn count_of_numbers(v: Seq<Binary64>) -> nat
    decreases v.len(),
{
    if v.len() == 0 {
        0
    } else {
        let c = count_of_numbers(v.drop_last());
        if bits_nan(v.last().bits) {
            c
        } else {
            c + 1
        }
    }
}

/// The mean of the entries that are numbers; not a number where there is
/// none.
pub open spec fn average_of(v: Seq<Binary64>) -> Binary64 {
    if count_of_numbers(v) > 0 {
        Binary64 { bits: ieee_div(sum_of_numbers(v).bits, ieee_from_int(count_of_numbers(v) as u64)) }
    } else {
        Binary64 { bits: NAN_BITS }
    }
}

/// The smaller of a running minimum and an entry; an entry that is not a
/// number leaves the minimum as it is.
pub open spec fn smaller(acc: Binary64, x: Binary64) -> Binary64 {
    if !bits_nan(x.bits) && (bits_nan(acc.bits) || bits_lt(x.bits, acc.bits)) {
        x
    } else {
        acc
    }
}

/// The larger of a running maximum and an entry; an entry that is not a
/// number leaves the maximum as it is.
pub open spec fn larger(acc: Binary64, x: Binary64) -> Binary64 {
    if !bits_nan(x.bits) && (bits_nan(acc.bits) || bits_lt(acc.bits, x.bits)) {
        x
    } else {
        acc
    }
}

/// The least entry, from positive infinity down.
pub open spec fn least_of(v: Seq<Binary64>) -> Binary64
    decreases v.len(),
{
    if v.len() == 0 {
        Binary64 { bits: INFINITY_BITS }
    } else {
        smaller(least_of(v.drop_last()), v.last())
    }
}

/// The greatest entry, from negative infinity up.
pub open spec fn greatest_of(v: Seq<Binary64>) -> Binary64
    decreases v.len(),
{
    if v.len() == 0 {
        Binary64 { bits: bits_neg(INFINITY_BITS) }
    } else {
        larger(greatest_of(v.drop_last()), v.last())
    }
}

/// A function applied to a value: a number is its own average, minimum and
/// maximum; a vector is folded; any other kind is a type error.
pub open spec fn apply_func(f: Func, v: Value) -> Result<Value, EvalError> {
    match v {
        Value::Number(n) => Ok(Value::Number(n)),
        Value::Vector(x) => Ok(
            Value::Number(
                match f {
                    Func::Average => average_of(x),
                    Func::Min => least_of(x),
                    Func::Max => greatest_of(x),
                },
            ),
        ),
        _ => Err(EvalError::TypeMismatch),
    }
}

/// What a name evaluates to. A vector of one entry is that entry. A name
/// that no collection holds is zero, or an error where `strict` is set. A
/// name that stands for text is a type error.
pub open spec fn resolve(collect: Seq<Names>, name: Seq<u8>, strict: bool) -> Result<
    Value,
    EvalError,
> {
    match lookup(collect, name) {
        None => if strict {
            Err(EvalError::UnknownMetric)
        } else {
            Ok(Value::Number(Binary64 { bits: 0 }))
        },
        Some(Value::Vector(v)) => if v.len() == 1 {
            Ok(Value::Number(v[0]))
        } else {
            Ok(Value::Vector(v))
        },
        Some(Value::Number(n)) => Ok(Value::Number(n)),
        Some(_) => Err(EvalError::TypeMismatch),
    }
}

/// An operator applied to two evaluated operands; an error on the left
/// comes before one on the right.
pub open spec fn binary(op: ArithOp, l: Result<Value, EvalError>, r: Result<Value, EvalError>) -> Result<
    Value,
    EvalError,
> {
    match l {
        Err(e) => Err(e),
        Ok(a) => match r {
            Err(e) => Err(e),
            Ok(b) => arith(op, a, b),
        },
    }
}

/// What a formula evaluates to.
pub open spec fn eval_tree(t: Tree, collect: Seq<Names>, strict: bool) -> Result<
    Value,
    EvalError,
>
    decreases t,
{
    match t {
        Tree::Number(n) => Ok(Value::Number(n)),
        Tree::Id(name) => resolve(collect, name, strict),
        Tree::Op(op, l, r) => binary(
            op,
            eval_tree(*l, collect, strict),
            eval_tree(*r, collect, strict),
        ),
        Tree::Fn(f, x) => match eval_tree(*x, collect, strict) {
            Ok(v) => apply_func(f, v),
            Err(e) => Err(e),
        },
    }
}

/// Whether a computed result is the one that is wanted: the same error, or
/// a value with the wanted view.
pub open spec fn yields(r: Result<ExprResult, EvalError>, want: Result<Value, EvalError>) -> bool {
    match want {
        Ok(v) => r is Ok && r->Ok_0@ == v,
        Err(e) => r == Err::<ExprResult, EvalError>(e),
    }
}

/// The mean of the entries that are numbers.
pub fn average(v: &Vec<Binary64>) -> (r: Binary64)
    ensures
        r == average_of(v@),
{
    let mut sum = Binary64::zero();
    let mut count: u64 = 0;
    let mut i: usize = 0;
    while i < v.len()
        invariant
            i <= v.len(),
            count <= i,
            sum == sum_of_numbers(v@.take(i as int)),
            count == count_of_numbers(v@.take(i as int)),
        decreases v.len() - i,
    {
        assert(v@.take(i + 1).drop_last() =~= v@.take(i as int));
        if !v[i].is_nan() {
            sum = sum.plus(v[i]);
            count = count + 1;
        }
        i = i + 1;
    }
    assert(v@.take(v.len() as int) =~= v@);
    if count > 0 {
        sum.over(Binary64::from_int(count))
    } else {
        Binary64::nan()
    }
}

/// The least entry.
pub fn least(v: &Vec<Binary64>) -> (r: Binary64)
    ensures
        r == least_of(v@),
{
    let mut acc = Binary64::infinity();
    let mut i: usize = 0;
    while i < v.len()
        invariant
            i <= v.len(),
            acc == least_of(v@.take(i as int)),
        decreases v.len() - i,
    {
        assert(v@.take(i + 1).drop_last() =~= v@.take(i as int));
        if !v[i].is_nan() && (acc.is_nan() || v[i].lt(acc)) {
            acc = v[i];
        }
        i = i + 1;
    }
    assert(v@.take(v.len() as int) =~= v@);
    acc
}

/// The greatest entry.
pub fn greatest(v: &Vec<Binary64>) -> (r: Binary64)
    ensures
        r == greatest_of(v@),
{
    let mut acc = Binary64::neg_infinity();
    let mut i: usize = 0;
    while i < v.len()
        invariant
            i <= v.len(),
            acc == greatest_of(v@.take(i as int)),
        decreases v.len() - i,
    {
        assert(v@.take(i + 1).drop_last() =~= v@.take(i as int));
        if !v[i].is_nan() && (acc.is_nan() || acc.lt(v[i])) {
            acc = v[i];
        }
        i = i + 1;
    }
    assert(v@.take(v.len() as int) =~= v@);
    acc
}

/// A function applied to a value.
pub fn call(f: Func, v: ExprResult) -> (r: Result<ExprResult, EvalError>)
    ensures
        yields(r, apply_func(f, v@)),
{
    match v {
        ExprResult::Number(n) => Ok(ExprResult::Number(n)),
        ExprResult::Vector(x) => {
            let n = match f {
                Func::Average => average(&x),
                Func::Min => least(&x),
                Func::Max => greatest(&x),
            };
            Ok(ExprResult::Number(n))
        },
        _ => Err(EvalError::TypeMismatch),
    }
}

/// What a name evaluates to.
pub fn resolve_name(collect: &Vec<SnmpResult>, name: &[u8], strict: bool) -> (r: Result<
    ExprResult,
    EvalError,
>)
    ensures
        yields(r, resolve(namespaces(collect@), name@, strict)),
{
    match find_value(collect, name) {
        None => if strict {
            Err(EvalError::UnknownMetric)
        } else {
            Ok(ExprResult::Number(Binary64::zero()))
        },
        Some(item) => match item {
            ExprResult::Vector(v) => {
                if v.len() == 1 {
                    Ok(ExprResult::Number(v[0]))
                } else {
                    Ok(ExprResult::Vector(copy_numbers(v)))
                }
            },
            ExprResult::Number(n) => Ok(ExprResult::Number(*n)),
            _ => Err(EvalError::TypeMismatch),
        },
    }
}

impl Expr {
    /// Evaluates the formula. `strict` decides whether a name that no
    /// collection holds is an error or zero.
    pub fn eval_with(&self, collect: &Vec<SnmpResult>, strict: bool) -> (r: Result<
        ExprResult,
        EvalError,
    >)
        ensures
            yields(r, eval_tree(self@, namespaces(collect@), strict)),
        decreases self,
    {
        match self {
            Expr::Number(n) => Ok(ExprResult::Number(*n)),
            Expr::Id(name) => resolve_name(collect, name.as_slice(), strict),
            Expr::OpPlus(l, r) => {
                let a = l.eval_with(collect, strict)?;
                let b = r.eval_with(collect, strict)?;
                a.arith(ArithOp::Add, b)
            },
            Expr::OpMinus(l, r) => {
                let a = l.eval_with(collect, strict)?;
                let b = r.eval_with(collect, strict)?;
                a.arith(ArithOp::Sub, b)
            },
            Expr::OpStar(l, r) => {
                let a = l.eval_with(collect, strict)?;
                let b = r.eval_with(collect, strict)?;
                a.arith(ArithOp::Mul, b)
            },
            Expr::OpSlash(l, r) => {
                let a = l.eval_with(collect, strict)?;
                let b = r.eval_with(collect, strict)?;
                a.arith(ArithOp::Div, b)
            },
            Expr::Fn(f, x) => {
                let v = x.eval_with(collect, strict)?;
                call(*f, v)
            },
        }
    }

    /// Evaluates the formula; a name that no collection holds is zero.
    pub fn eval(&self, collect: &Vec<SnmpResult>) -> (r: Result<ExprResult, EvalError>)
        ensures
            yields(r, eval_tree(self@, namespaces(collect@), false)),
    {
        self.eval_with(collect, false)
    }

    /// Evaluates the formula; a name that no collection holds is an
    /// `UnknownMetric` error.
    pub fn eval_strict(&self, collect: &Vec<SnmpResult>) -> (r: Result<ExprResult, EvalError>)
        ensures
            yields(r, eval_tree(self@, namespaces(collect@), true)),
    {
        self.eval_with(collect, true)
    }

    /// The name that the formula consists of; `Bad value` for a formula
    /// that is more than a name.
    pub fn eval_as_str(&self) -> (r: Vec<u8>)
        ensures
            r@ == match self@ {
                Tree::Id(name) => name,
                _ => seq![0x42u8, 0x61, 0x64, 0x20, 0x76, 0x61, 0x6c, 0x75, 0x65],
            },
    {
        match self {
            Expr::Id(name) => {
                let mut out: Vec<u8> = Vec::new();
                let mut i: usize = 0;
                while i < name.len()
                    invariant
                        i <= name.len(),
                        out@ == name@.take(i as int),
                    decreases name.len() - i,
                {
                    out.push(name[i]);
                    assert(out@ =~= name@.take(i + 1));
                    i = i + 1;
                }
                assert(name@.take(name.len() as int) =~= name@);
                out
            },
            _ => {
                let out: Vec<u8> = vec![0x42u8, 0x61, 0x64, 0x20, 0x76, 0x61, 0x6c, 0x75, 0x65];
                assert(out@ =~= seq![0x42u8, 0x61, 0x64, 0x20, 0x76, 0x61, 0x6c, 0x75, 0x65]);
                out
            },
        }
    }
}

} // verus!
