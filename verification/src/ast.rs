//! Syntax trees of formulas, the values they evaluate to, and the
//! arithmetic on those values.

use crate::number::{bits_neg, ieee_add, ieee_div, ieee_mul, ieee_sub, Binary64, ONE_BITS};
use vstd::prelude::*;

verus! {

/// A formula.
#[derive(Debug)]
pub enum Expr {
    /// The name of a collected value, as the bytes written between braces.
    Id(Vec<u8>),
    Number(Binary64),
    OpPlus(Box<Expr>, Box<Expr>),
    OpMinus(Box<Expr>, Box<Expr>),
    OpStar(Box<Expr>, Box<Expr>),
    OpSlash(Box<Expr>, Box<Expr>),
    Fn(Func, Box<Expr>),
}

#[derive(Debug, Clone, Copy, PartialEq, Eq)]
pub enum Func {
    Average,
    Min,
    Max,
}

/// What a formula or a template evaluates to, and what a collection stores.
#[derive(Debug)]
pub enum ExprResult {
    Vector(Vec<Binary64>),
    Number(Binary64),
    StrVector(Vec<String>),
    Str(String),
    Empty,
}

/// Why an evaluation failed.
#[derive(Debug, Clone, Copy, PartialEq, Eq)]
pub enum EvalError {
    /// An operator, a function or a join met a value of the wrong kind.
    TypeMismatch,
    /// A name that no collection holds, where that is not tolerated.
    UnknownMetric,
}

/// The four operators.
#[derive(Debug, Clone, Copy, PartialEq, Eq)]
pub enum ArithOp {
    Add,
    Sub,
    Mul,
    Div,
}

/// The mathematical value of an `ExprResult`.
pub enum Value {
    Vector(Seq<Binary64>),
    Number(Binary64),
    StrVector(Seq<Seq<char>>),
    Str(Seq<char>),
    Empty,
}

/// The mathematical form of a formula.
pub enum Tree {
    Id(Seq<u8>),
    Number(Binary64),
    Op(ArithOp, Box<Tree>, Box<Tree>),
    Fn(Func, Box<Tree>),
}

/// The mathematical form of a formula.
pub open spec fn tree_of(e: Expr) -> Tree
    decreases e,
{
    match e {
        Expr::Id(name) => Tree::Id(name@),
        Expr::Number(n) => Tree::Number(n),
        Expr::OpPlus(l, r) => Tree::Op(ArithOp::Add, Box::new(tree_of(*l)), Box::new(tree_of(*r))),
        Expr::OpMinus(l, r) => Tree::Op(ArithOp::Sub, Box::new(tree_of(*l)), Box::new(tree_of(*r))),
        Expr::OpStar(l, r) => Tree::Op(ArithOp::Mul, Box::new(tree_of(*l)), Box::new(tree_of(*r))),
        Expr::OpSlash(l, r) => Tree::Op(ArithOp::Div, Box::new(tree_of(*l)), Box::new(tree_of(*r))),
        Expr::Fn(f, x) => Tree::Fn(f, Box::new(tree_of(*x))),
    }
}

impl View for Expr {
    type V = Tree;

    open spec fn view(&self) -> Tree {
        tree_of(*self)
    }
}

/// The texts of a list of strings.
pub open spec fn texts(v: Seq<String>) -> Seq<Seq<char>> {
    Seq::new(v.len(), |i: int| v[i]@)
}

impl View for ExprResult {
    type V = Value;

    open spec fn view(&self) -> Value {
        match self {
            ExprResult::Vector(v) => Value::Vector(v@),
            ExprResult::Number(n) => Value::Number(*n),
            ExprResult::StrVector(v) => Value::StrVector(texts(v@)),
            ExprResult::Str(s) => Value::Str(s@),
            ExprResult::Empty => Value::Empty,
        }
    }
}

/// One operator applied to two numbers, left operand first.
pub open spec fn apply(op: ArithOp, a: Binary64, b: Binary64) -> Binary64 {
    match op {
        ArithOp::Add => Binary64 { bits: ieee_add(a.bits, b.bits) },
        ArithOp::Sub => Binary64 { bits: ieee_sub(a.bits, b.bits) },
        ArithOp::Mul => Binary64 { bits: ieee_mul(a.bits, b.bits) },
        ArithOp::Div => Binary64 { bits: ieee_div(a.bits, b.bits) },
    }
}

/// What becomes of an element of the right operand that has no partner on
/// the left: sums and products keep it, a difference negates it, a quotient
/// takes its reciprocal.
pub open spec fn alone_on_right(op: ArithOp, b: Binary64) -> Binary64 {
    match op {
        ArithOp::Add => b,
        ArithOp::Mul => b,
        ArithOp::Sub => Binary64 { bits: bits_neg(b.bits) },
        ArithOp::Div => Binary64 { bits: ieee_div(ONE_BITS, b.bits) },
    }
}

/// The element at `i` of two vectors combined: both operands where both
/// reach, the left one unchanged where only it reaches, the right one as
/// `alone_on_right` has it where only it reaches.
pub open spec fn combined_at(op: ArithOp, a: Seq<Binary64>, b: Seq<Binary64>, i: int) -> Binary64 {
    if i < a.len() && i < b.len() {
        apply(op, a[i], b[i])
    } else if i < a.len() {
        a[i]
    } else {
        alone_on_right(op, b[i])
    }
}

/// Two vectors combined element by element, as long as the longer one.
pub open spec fn combine(op: ArithOp, a: Seq<Binary64>, b: Seq<Binary64>) -> Seq<Binary64> {
    Seq::new(
        if a.len() >= b.len() {
            a.len()
        } else {
            b.len()
        },
        |i: int| combined_at(op, a, b, i),
    )
}

/// A number on the left spread over a vector on the right.
pub open spec fn spread_left(op: ArithOp, a: Binary64, b: Seq<Binary64>) -> Seq<Binary64> {
    Seq::new(b.len(), |i: int| apply(op, a, b[i]))
}

/// A number on the right spread over a vector on the left.
pub open spec fn spread_right(op: ArithOp, a: Seq<Binary64>, b: Binary64) -> Seq<Binary64> {
    Seq::new(a.len(), |i: int| apply(op, a[i], b))
}

/// One operator applied to two values. Numbers and vectors combine; any
/// other kind of operand is a type error.
pub open spec fn arith(op: ArithOp, a: Value, b: Value) -> Result<Value, EvalError> {
    match (a, b) {
        (Value::Number(x), Value::Number(y)) => Ok(Value::Number(apply(op, x, y))),
        (Value::Vector(x), Value::Vector(y)) => Ok(Value::Vector(combine(op, x, y))),
        (Value::Number(x), Value::Vector(y)) => Ok(Value::Vector(spread_left(op, x, y))),
        (Value::Vector(x), Value::Number(y)) => Ok(Value::Vector(spread_right(op, x, y))),
        _ => Err(EvalError::TypeMismatch),
    }
}

/// One operator applied to two numbers.
pub fn apply_op(op: ArithOp, a: Binary64, b: Binary64) -> (r: Binary64)
    ensures
        r == apply(op, a, b),
{
    match op {
        ArithOp::Add => a.plus(b),
        ArithOp::Sub => a.minus(b),
        ArithOp::Mul => a.times(b),
        ArithOp::Div => a.over(b),
    }
}

/// What becomes of a right-hand element without a partner.
pub fn apply_alone(op: ArithOp, b: Binary64) -> (r: Binary64)
    ensures
        r == alone_on_right(op, b),
{
    match op {
        ArithOp::Add => b,
        ArithOp::Mul => b,
        ArithOp::Sub => b.negated(),
        ArithOp::Div => Binary64::one().over(b),
    }
}

/// Two vectors combined element by element.
pub fn combine_vectors(op: ArithOp, a: &Vec<Binary64>, b: &Vec<Binary64>) -> (r: Vec<Binary64>)
    ensures
        r@ == combine(op, a@, b@),
{
    let n = if a.len() >= b.len() { a.len() } else { b.len() };
    let mut result: Vec<Binary64> = Vec::with_capacity(n);
    let mut i: usize = 0;
    while i < n
        invariant
            i <= n,
            n == combine(op, a@, b@).len(),
            result@.len() == i,
            forall|k: int| 0 <= k < i ==> result@[k] == combined_at(op, a@, b@, k),
        decreases n - i,
    {
        let x = if i < a.len() && i < b.len() {
            apply_op(op, a[i], b[i])
        } else if i < a.len() {
            a[i]
        } else {
            apply_alone(op, b[i])
        };
        result.push(x);
        i = i + 1;
    }
    assert(result@ =~= combine(op, a@, b@));
    result
}

/// A number on the left spread over a vector on the right.
pub fn spread_over_right(op: ArithOp, a: Binary64, b: &Vec<Binary64>) -> (r: Vec<Binary64>)
    ensures
        r@ == spread_left(op, a, b@),
{
    let mut result: Vec<Binary64> = Vec::with_capacity(b.len());
    let mut i: usize = 0;
    while i < b.len()
        invariant
            i <= b.len(),
            result@.len() == i,
            forall|k: int| 0 <= k < i ==> result@[k] == apply(op, a, b@[k]),
        decreases b.len() - i,
    {
        result.push(apply_op(op, a, b[i]));
        i = i + 1;
    }
    assert(result@ =~= spread_left(op, a, b@));
    result
}

/// A number on the right spread over a vector on the left.
pub fn spread_over_left(op: ArithOp, a: &Vec<Binary64>, b: Binary64) -> (r: Vec<Binary64>)
    ensures
        r@ == spread_right(op, a@, b),
{
    let mut result: Vec<Binary64> = Vec::with_capacity(a.len());
    let mut i: usize = 0;
    while i < a.len()
        invariant
            i <= a.len(),
            result@.len() == i,
            forall|k: int| 0 <= k < i ==> result@[k] == apply(op, a@[k], b),
        decreases a.len() - i,
    {
        result.push(apply_op(op, a[i], b));
        i = i + 1;
    }
    assert(result@ =~= spread_right(op, a@, b));
    result
}

impl ExprResult {
    /// One operator applied to two values.
    pub fn arith(self, op: ArithOp, other: ExprResult) -> (r: Result<ExprResult, EvalError>)
        ensures
            match arith(op, self@, other@) {
                Ok(v) => r is Ok && r->Ok_0@ == v,
                Err(e) => r == Err::<ExprResult, EvalError>(e),
            },
    {
        match (self, other) {
            (ExprResult::Number(a), ExprResult::Number(b)) => Ok(
                ExprResult::Number(apply_op(op, a, b)),
            ),
            (ExprResult::Vector(a), ExprResult::Vector(b)) => Ok(
                ExprResult::Vector(combine_vectors(op, &a, &b)),
            ),
            (ExprResult::Number(a), ExprResult::Vector(b)) => Ok(
                ExprResult::Vector(spread_over_right(op, a, &b)),
            ),
            (ExprResult::Vector(a), ExprResult::Number(b)) => Ok(
                ExprResult::Vector(spread_over_left(op, &a, b)),
            ),
            _ => Err(EvalError::TypeMismatch),
        }
    }

    /// The sum of two values.
    pub fn add(self, other: ExprResult) -> (r: Result<ExprResult, EvalError>)
        ensures
            match arith(ArithOp::Add, self@, other@) {
                Ok(v) => r is Ok && r->Ok_0@ == v,
                Err(e) => r == Err::<ExprResult, EvalError>(e),
            },
    {
        self.arith(ArithOp::Add, other)
    }

    /// The difference of two values.
    pub fn sub(self, other: ExprResult) -> (r: Result<ExprResult, EvalError>)
        ensures
            match arith(ArithOp::Sub, self@, other@) {
                Ok(v) => r is Ok && r->Ok_0@ == v,
                Err(e) => r == Err::<ExprResult, EvalError>(e),
            },
    {
        self.arith(ArithOp::Sub, other)
    }

    /// The product of two values.
    pub fn mul(self, other: ExprResult) -> (r: Result<ExprResult, EvalError>)
        ensures
            match arith(ArithOp::Mul, self@, other@) {
                Ok(v) => r is Ok && r->Ok_0@ == v,
                Err(e) => r == Err::<ExprResult, EvalError>(e),
            },
    {
        self.arith(ArithOp::Mul, other)
    }

    /// The quotient of two values.
    pub fn div(self, other: ExprResult) -> (r: Result<ExprResult, EvalError>)
        ensures
            match arith(ArithOp::Div, self@, other@) {
                Ok(v) => r is Ok && r->Ok_0@ == v,
                Err(e) => r == Err::<ExprResult, EvalError>(e),
            },
    {
        self.arith(ArithOp::Div, other)
    }
}

/// A copy of a list of numbers.
pub fn copy_numbers(v: &Vec<Binary64>) -> (r: Vec<Binary64>)
    ensures
        r@ == v@,
{
    let mut out: Vec<Binary64> = Vec::with_capacity(v.len());
    let mut i: usize = 0;
    while i < v.len()
        invariant
            i <= v.len(),
            out@ == v@.take(i as int),
        decreases v.len() - i,
    {
        out.push(v[i]);
        assert(out@ =~= v@.take(i + 1));
        i = i + 1;
    }
    assert(v@.take(v.len() as int) =~= v@);
    out
}

/// A copy of a list of strings.
pub fn copy_strings(v: &Vec<String>) -> (r: Vec<String>)
    ensures
        r@ == v@,
{
    let mut out: Vec<String> = Vec::with_capacity(v.len());
    let mut i: usize = 0;
    while i < v.len()
        invariant
            i <= v.len(),
            out@ == v@.take(i as int),
        decreases v.len() - i,
    {
        out.push(v[i].clone());
        assert(out@ =~= v@.take(i + 1));
        i = i + 1;
    }
    assert(v@.take(v.len() as int) =~= v@);
    out
}

impl ExprResult {
    /// A copy of the value.
    pub fn duplicate(&self) -> (r: ExprResult)
        ensures
            r@ == self@,
    {
        match self {
            ExprResult::Vector(v) => ExprResult::Vector(copy_numbers(v)),
            ExprResult::Number(n) => ExprResult::Number(*n),
            ExprResult::StrVector(v) => ExprResult::StrVector(copy_strings(v)),
            ExprResult::Str(s) => ExprResult::Str(s.clone()),
            ExprResult::Empty => ExprResult::Empty,
        }
    }
}

/// The shape of two vectors combined: as long as the longer one; element by
/// element where both reach; the left operand's tail as it is; the right
/// operand's tail kept by sums and products, negated by a difference,
/// inverted by a quotient.
pub proof fn lemma_combine_shape(op: ArithOp, a: Seq<Binary64>, b: Seq<Binary64>)
    ensures
        combine(op, a, b).len() == if a.len() >= b.len() {
            a.len()
        } else {
            b.len()
        },
        forall|i: int|
            0 <= i < a.len() && i < b.len() ==> #[trigger] combine(op, a, b)[i] == apply(
                op,
                a[i],
                b[i],
            ),
        forall|i: int| b.len() <= i < a.len() ==> #[trigger] combine(op, a, b)[i] == a[i],
        forall|i: int|
            a.len() <= i < b.len() ==> #[trigger] combine(op, a, b)[i] == match op {
                ArithOp::Add => b[i],
                ArithOp::Mul => b[i],
                ArithOp::Sub => Binary64 { bits: bits_neg(b[i].bits) },
                ArithOp::Div => Binary64 { bits: ieee_div(ONE_BITS, b[i].bits) },
            },
{
}

} // verus!
