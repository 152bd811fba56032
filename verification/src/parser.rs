//! The grammar of formulas.
//!
//! ```text
//! expr   := term (('+' | '-') term)*
//! term   := factor (('*' | '/') factor)*
//! factor := Number | '{' Identifier '}' | '(' expr ')' | FuncName '(' expr ')'
//! ```
//!
//! A function name is `Average`, `Min` or `Max`. An identifier outside braces
//! that is not a function name followed by `(` is an error.

use crate::ast::{ArithOp, Expr, Func, Tree};
use crate::number::Binary64;
use crate::lexer::{
    lemma_step_advances, lex_step, Lexer, LexicalError, Tok,
};
use vstd::prelude::*;
use vstd::string::StringSliceAdditionalSpecFns;

verus! {

/// A token with the byte offsets where it starts and ends.
pub type Token = (usize, Tok, usize);

/// Why a text is no formula.
#[derive(Debug, Clone, Copy, PartialEq)]
pub enum ParseError {
    /// A byte that starts no token.
    Lexical(LexicalError),
    /// The text ends where the grammar asks for more.
    UnexpectedEnd,
    /// A token stands where the grammar asks for another.
    UnexpectedToken { start: usize, end: usize },
    /// A token follows a complete formula.
    TrailingInput { start: usize, end: usize },
}

/// The tokens of `s` from a lexer state on, or the first lexical error.
pub open spec fn tokens_from(s: Seq<u8>, offset: usize, braced: bool) -> Result<
    Seq<Token>,
    LexicalError,
>
    decreases s.len() - offset,
{
    let step = lex_step(s, offset, braced);
    match step.item {
        None => Ok(Seq::<Token>::empty()),
        Some(Err(e)) => Err(e),
        Some(Ok(t)) => if offset < step.offset <= s.len() {
            match tokens_from(s, step.offset, step.braced) {
                Ok(rest) => Ok(seq![t] + rest),
                Err(e) => Err(e),
            }
        } else {
            Ok(seq![t])
        },
    }
}

/// Tokens already read, followed by what is still to come.
pub open spec fn then_tokens(done: Seq<Token>, rest: Result<Seq<Token>, LexicalError>) -> Result<
    Seq<Token>,
    LexicalError,
> {
    match rest {
        Ok(r) => Ok(done + r),
        Err(e) => Err(e),
    }
}

/// The bytes that a token spans.
pub open spec fn token_text(s: Seq<u8>, t: Token) -> Seq<u8> {
    if t.0 <= t.2 <= s.len() {
        s.subrange(t.0 as int, t.2 as int)
    } else {
        Seq::<u8>::empty()
    }
}

/// The function that a name denotes.
pub open spec fn func_named(name: Seq<u8>) -> Option<Func> {
    if name == seq![0x41u8, 0x76, 0x65, 0x72, 0x61, 0x67, 0x65] {
        Some(Func::Average)
    } else if name == seq![0x4du8, 0x69, 0x6e] {
        Some(Func::Min)
    } else if name == seq![0x4du8, 0x61, 0x78] {
        Some(Func::Max)
    } else {
        None
    }
}

/// The error for what stands at `pos` where something else was expected.
pub open spec fn unexpected(toks: Seq<Token>, pos: int) -> ParseError {
    if 0 <= pos < toks.len() {
        ParseError::UnexpectedToken { start: toks[pos].0, end: toks[pos].2 }
    } else {
        ParseError::UnexpectedEnd
    }
}

/// Whether the token at `pos` is `tok`.
pub open spec fn token_is(toks: Seq<Token>, pos: int, tok: Tok) -> bool {
    0 <= pos < toks.len() && toks[pos].1 == tok
}

/// A parsed subformula closed by a right parenthesis at `pos`.
pub open spec fn closed(toks: Seq<Token>, inner: Result<(Tree, int), ParseError>) -> Result<
    (Tree, int),
    ParseError,
> {
    match inner {
        Ok((e, p)) => if token_is(toks, p, Tok::RParen) {
            Ok((e, p + 1))
        } else {
            Err(unexpected(toks, p))
        },
        Err(e) => Err(e),
    }
}

/// The operator of an additive token.
pub open spec fn additive(tok: Tok) -> Option<ArithOp> {
    match tok {
        Tok::OpPlus => Some(ArithOp::Add),
        Tok::OpMinus => Some(ArithOp::Sub),
        _ => None,
    }
}

/// The operator of a multiplicative token.
pub open spec fn multiplicative(tok: Tok) -> Option<ArithOp> {
    match tok {
        Tok::OpStar => Some(ArithOp::Mul),
        Tok::OpSlash => Some(ArithOp::Div),
        _ => None,
    }
}

/// `factor` at `pos`: the formula and the position after it.
pub open spec fn parse_factor(s: Seq<u8>, toks: Seq<Token>, pos: int) -> Result<(Tree, int), ParseError>
    decreases toks.len() - pos, 0int,
{
    if pos < 0 || pos >= toks.len() {
        Err(ParseError::UnexpectedEnd)
    } else {
        match toks[pos].1 {
            Tok::Num(n) => Ok((Tree::Number(n), pos + 1)),
            Tok::LBrace => if !token_is(toks, pos + 1, Tok::Id) {
                Err(unexpected(toks, pos + 1))
            } else if !token_is(toks, pos + 2, Tok::RBrace) {
                Err(unexpected(toks, pos + 2))
            } else {
                Ok((Tree::Id(token_text(s, toks[pos + 1])), pos + 3))
            },
            Tok::LParen => closed(toks, parse_expr(s, toks, pos + 1)),
            Tok::Id => match func_named(token_text(s, toks[pos])) {
                None => Err(unexpected(toks, pos)),
                Some(f) => if !token_is(toks, pos + 1, Tok::LParen) {
                    Err(unexpected(toks, pos + 1))
                } else {
                    match closed(toks, parse_expr(s, toks, pos + 2)) {
                        Ok((e, p)) => Ok((Tree::Fn(f, Box::new(e)), p)),
                        Err(e) => Err(e),
                    }
                },
            },
            _ => Err(unexpected(toks, pos)),
        }
    }
}

/// The rest of a `term` whose left part is parsed: factors joined to it
/// from the left.
pub open spec fn term_rest(s: Seq<u8>, toks: Seq<Token>, left: Tree, pos: int) -> Result<
    (Tree, int),
    ParseError,
>
    decreases toks.len() - pos, 1int,
{
    if 0 <= pos < toks.len() && multiplicative(toks[pos].1) is Some {
        match parse_factor(s, toks, pos + 1) {
            Ok((right, p)) => if pos < p <= toks.len() {
                term_rest(
                    s,
                    toks,
                    Tree::Op(multiplicative(toks[pos].1)->0, Box::new(left), Box::new(right)),
                    p,
                )
            } else {
                Err(ParseError::UnexpectedEnd)
            },
            Err(e) => Err(e),
        }
    } else {
        Ok((left, pos))
    }
}

/// `term` at `pos`.
pub open spec fn parse_term(s: Seq<u8>, toks: Seq<Token>, pos: int) -> Result<(Tree, int), ParseError>
    decreases toks.len() - pos, 2int,
{
    match parse_factor(s, toks, pos) {
        Ok((left, p)) => if pos < p <= toks.len() {
            term_rest(s, toks, left, p)
        } else {
            Err(ParseError::UnexpectedEnd)
        },
        Err(e) => Err(e),
    }
}

/// The rest of an `expr` whose left part is parsed: terms joined to it from
/// the left.
pub open spec fn expr_rest(s: Seq<u8>, toks: Seq<Token>, left: Tree, pos: int) -> Result<
    (Tree, int),
    ParseError,
>
    decreases toks.len() - pos, 1int,
{
    if 0 <= pos < toks.len() && additive(toks[pos].1) is Some {
        match parse_term(s, toks, pos + 1) {
            Ok((right, p)) => if pos < p <= toks.len() {
                expr_rest(
                    s,
                    toks,
                    Tree::Op(additive(toks[pos].1)->0, Box::new(left), Box::new(right)),
                    p,
                )
            } else {
                Err(ParseError::UnexpectedEnd)
            },
            Err(e) => Err(e),
        }
    } else {
        Ok((left, pos))
    }
}

/// `expr` at `pos`.
pub open spec fn parse_expr(s: Seq<u8>, toks: Seq<Token>, pos: int) -> Result<(Tree, int), ParseError>
    decreases toks.len() - pos, 3int,
{
    match parse_term(s, toks, pos) {
        Ok((left, p)) => if pos < p <= toks.len() {
            expr_rest(s, toks, left, p)
        } else {
            Err(ParseError::UnexpectedEnd)
        },
        Err(e) => Err(e),
    }
}

/// The formula that a list of tokens spells, all of it.
pub open spec fn parse_tokens(s: Seq<u8>, toks: Seq<Token>) -> Result<Tree, ParseError> {
    match parse_expr(s, toks, 0) {
        Ok((e, p)) => if p == toks.len() {
            Ok(e)
        } else if 0 <= p < toks.len() {
            Err(ParseError::TrailingInput { start: toks[p].0, end: toks[p].2 })
        } else {
            Err(ParseError::UnexpectedEnd)
        },
        Err(e) => Err(e),
    }
}

/// The formula that a text spells.
pub open spec fn parse_bytes(s: Seq<u8>) -> Result<Tree, ParseError> {
    match tokens_from(s, 0, false) {
        Err(e) => Err(ParseError::Lexical(e)),
        Ok(toks) => parse_tokens(s, toks),
    }
}

/// Whether a computed result is the one that the grammar gives: the same
/// error, or a formula with the same tree and the same end.
pub open spec fn parsed(r: Result<(Expr, usize), ParseError>, want: Result<(Tree, int), ParseError>) -> bool {
    match want {
        Ok((t, p)) => r is Ok && r->Ok_0.0@ == t && r->Ok_0.1 == p,
        Err(e) => r is Err && r->Err_0 == e,
    }
}

/// The tokens of a text, or the first lexical error.
pub fn tokenize(input: &str) -> (r: Result<Vec<Token>, LexicalError>)
    ensures
        match tokens_from(input.spec_bytes(), 0, false) {
            Ok(toks) => r is Ok && r->Ok_0@ == toks,
            Err(e) => r == Err::<Vec<Token>, LexicalError>(e),
        },
{
    let n = input.as_bytes().len();
    let ghost s = input.spec_bytes();
    let mut lexer = Lexer::new(input);
    let mut out: Vec<Token> = Vec::new();
    assert(then_tokens(out@, tokens_from(s, 0, false)) =~= tokens_from(s, 0, false)) by {
        match tokens_from(s, 0, false) {
            Ok(r) => assert(out@ + r =~= r),
            Err(e) => {},
        }
    }
    loop
        invariant
            s == input.spec_bytes(),
            s.len() == n,
            lexer.bytes() == s,
            then_tokens(out@, tokens_from(s, lexer.position(), lexer.in_braces())) == tokens_from(
                s,
                0,
                false,
            ),
        decreases s.len() - lexer.position(),
    {
        let ghost offset = lexer.position();
        let ghost braced = lexer.in_braces();
        let ghost before = out@;
        match lexer.next() {
            None => {
                assert(before + Seq::<Token>::empty() =~= before);
                return Ok(out);
            },
            Some(Err(e)) => {
                return Err(e);
            },
            Some(Ok(t)) => {
                proof {
                    lemma_step_advances(s, offset, braced);
                    match tokens_from(s, lexer.position(), lexer.in_braces()) {
                        Ok(rest) => assert(before.push(t) + rest =~= before + (seq![t] + rest)),
                        Err(e) => {},
                    }
                }
                out.push(t);
            },
        }
    }
}

/// The bytes that a token spans.
pub fn token_bytes(bytes: &[u8], t: Token) -> (r: Vec<u8>)
    ensures
        r@ == token_text(bytes@, t),
{
    let mut out: Vec<u8> = Vec::new();
    if t.0 <= t.2 && t.2 <= bytes.len() {
        let mut i: usize = t.0;
        while i < t.2
            invariant
                t.0 <= i <= t.2 <= bytes.len(),
                out@ == bytes@.subrange(t.0 as int, i as int),
            decreases t.2 - i,
        {
            out.push(bytes[i]);
            assert(out@ =~= bytes@.subrange(t.0 as int, i + 1));
            i = i + 1;
        }
    }
    out
}

/// The function that a name denotes.
pub fn function_named(name: &[u8]) -> (r: Option<Func>)
    ensures
        r == func_named(name@),
{
    let ghost average = seq![0x41u8, 0x76, 0x65, 0x72, 0x61, 0x67, 0x65];
    let ghost min = seq![0x4du8, 0x69, 0x6e];
    let ghost max = seq![0x4du8, 0x61, 0x78];
    if name.len() == 7 {
        if name[0] == 0x41 && name[1] == 0x76 && name[2] == 0x65 && name[3] == 0x72 && name[4]
            == 0x61 && name[5] == 0x67 && name[6] == 0x65 {
            assert(name@ =~= average);
            Some(Func::Average)
        } else {
            assert(name@ != average) by {
                if name@ == average {
                    assert(name@[0] == average[0] && name@[1] == average[1] && name@[2]
                        == average[2] && name@[3] == average[3] && name@[4] == average[4]
                        && name@[5] == average[5] && name@[6] == average[6]);
                }
            }
            None
        }
    } else if name.len() == 3 {
        if name[0] == 0x4d && name[1] == 0x69 && name[2] == 0x6e {
            assert(name@ =~= min);
            Some(Func::Min)
        } else if name[0] == 0x4d && name[1] == 0x61 && name[2] == 0x78 {
            assert(name@ =~= max);
            assert(name@[1] != min[1]);
            Some(Func::Max)
        } else {
            assert(name@ != min) by {
                if name@ == min {
                    assert(name@[0] == min[0] && name@[1] == min[1] && name@[2] == min[2]);
                }
            }
            assert(name@ != max) by {
                if name@ == max {
                    assert(name@[0] == max[0] && name@[1] == max[1] && name@[2] == max[2]);
                }
            }
            None
        }
    } else {
        assert(average.len() == 7 && min.len() == 3 && max.len() == 3);
        None
    }
}

/// The error for what stands at `pos` where something else was expected.
pub fn unexpected_at(toks: &Vec<Token>, pos: usize) -> (r: ParseError)
    ensures
        r == unexpected(toks@, pos as int),
{
    if pos < toks.len() {
        ParseError::UnexpectedToken { start: toks[pos].0, end: toks[pos].2 }
    } else {
        ParseError::UnexpectedEnd
    }
}

/// An operator between two formulas.
pub fn make_op(op: ArithOp, left: Expr, right: Expr) -> (r: Expr)
    ensures
        r@ == Tree::Op(op, Box::new(left@), Box::new(right@)),
{
    match op {
        ArithOp::Add => Expr::OpPlus(Box::new(left), Box::new(right)),
        ArithOp::Sub => Expr::OpMinus(Box::new(left), Box::new(right)),
        ArithOp::Mul => Expr::OpStar(Box::new(left), Box::new(right)),
        ArithOp::Div => Expr::OpSlash(Box::new(left), Box::new(right)),
    }
}

/// Whether the token at `pos` is a right parenthesis.
fn at_rparen(toks: &Vec<Token>, pos: usize) -> (r: bool)
    ensures
        r == token_is(toks@, pos as int, Tok::RParen),
{
    pos < toks.len() && matches!(toks[pos].1, Tok::RParen)
}

/// `factor` at `pos`.
fn factor(bytes: &[u8], toks: &Vec<Token>, pos: usize) -> (r: Result<(Expr, usize), ParseError>)
    requires
        pos <= toks.len(),
    ensures
        parsed(r, parse_factor(bytes@, toks@, pos as int)),
        r is Ok ==> pos < r->Ok_0.1 <= toks.len(),
    decreases toks.len() - pos, 0int,
{
    if pos >= toks.len() {
        return Err(ParseError::UnexpectedEnd);
    }
    match toks[pos].1 {
        Tok::Num(n) => Ok((Expr::Number(n), pos + 1)),
        Tok::LBrace => {
            if !(pos + 1 < toks.len() && matches!(toks[pos + 1].1, Tok::Id)) {
                return Err(unexpected_at(toks, pos + 1));
            }
            if !(pos + 2 < toks.len() && matches!(toks[pos + 2].1, Tok::RBrace)) {
                return Err(unexpected_at(toks, pos + 2));
            }
            Ok((Expr::Id(token_bytes(bytes, toks[pos + 1])), pos + 3))
        },
        Tok::LParen => {
            let (e, p) = expression(bytes, toks, pos + 1)?;
            if at_rparen(toks, p) {
                Ok((e, p + 1))
            } else {
                Err(unexpected_at(toks, p))
            }
        },
        Tok::Id => {
            let name = token_bytes(bytes, toks[pos]);
            match function_named(name.as_slice()) {
                None => Err(unexpected_at(toks, pos)),
                Some(f) => {
                    if !(pos + 1 < toks.len() && matches!(toks[pos + 1].1, Tok::LParen)) {
                        return Err(unexpected_at(toks, pos + 1));
                    }
                    let (e, p) = expression(bytes, toks, pos + 2)?;
                    if at_rparen(toks, p) {
                        Ok((Expr::Fn(f, Box::new(e)), p + 1))
                    } else {
                        Err(unexpected_at(toks, p))
                    }
                },
            }
        },
        _ => Err(unexpected_at(toks, pos)),
    }
}

/// `term` at `pos`.
fn term(bytes: &[u8], toks: &Vec<Token>, pos: usize) -> (r: Result<(Expr, usize), ParseError>)
    requires
        pos <= toks.len(),
    ensures
        parsed(r, parse_term(bytes@, toks@, pos as int)),
        r is Ok ==> pos < r->Ok_0.1 <= toks.len(),
    decreases toks.len() - pos, 2int,
{
    let (first, start) = factor(bytes, toks, pos)?;
    let mut left = first;
    let mut p = start;
    loop
        invariant
            pos < p <= toks.len(),
            term_rest(bytes@, toks@, left@, p as int) == parse_term(bytes@, toks@, pos as int),
        decreases toks.len() - p,
    {
        if p >= toks.len() {
            return Ok((left, p));
        }
        let op = match toks[p].1 {
            Tok::OpStar => ArithOp::Mul,
            Tok::OpSlash => ArithOp::Div,
            _ => {
                return Ok((left, p));
            },
        };
        match factor(bytes, toks, p + 1) {
            Ok((right, next)) => {
                left = make_op(op, left, right);
                p = next;
            },
            Err(e) => {
                return Err(e);
            },
        }
    }
}

/// `expr` at `pos`.
fn expression(bytes: &[u8], toks: &Vec<Token>, pos: usize) -> (r: Result<
    (Expr, usize),
    ParseError,
>)
    requires
        pos <= toks.len(),
    ensures
        parsed(r, parse_expr(bytes@, toks@, pos as int)),
        r is Ok ==> pos < r->Ok_0.1 <= toks.len(),
    decreases toks.len() - pos, 3int,
{
    let (first, start) = term(bytes, toks, pos)?;
    let mut left = first;
    let mut p = start;
    loop
        invariant
            pos < p <= toks.len(),
            expr_rest(bytes@, toks@, left@, p as int) == parse_expr(bytes@, toks@, pos as int),
        decreases toks.len() - p,
    {
        if p >= toks.len() {
            return Ok((left, p));
        }
        let op = match toks[p].1 {
            Tok::OpPlus => ArithOp::Add,
            Tok::OpMinus => ArithOp::Sub,
            _ => {
                return Ok((left, p));
            },
        };
        match term(bytes, toks, p + 1) {
            Ok((right, next)) => {
                left = make_op(op, left, right);
                p = next;
            },
            Err(e) => {
                return Err(e);
            },
        }
    }
}

/// The formula that a list of tokens spells, all of it.
pub fn parse_token_list(bytes: &[u8], toks: &Vec<Token>) -> (r: Result<Expr, ParseError>)
    ensures
        match parse_tokens(bytes@, toks@) {
            Ok(t) => r is Ok && r->Ok_0@ == t,
            Err(e) => r is Err && r->Err_0 == e,
        },
{
    let (e, p) = expression(bytes, toks, 0)?;
    if p == toks.len() {
        Ok(e)
    } else {
        Err(ParseError::TrailingInput { start: toks[p].0, end: toks[p].2 })
    }
}

/// The formula that a text spells.
pub fn parse(input: &str) -> (r: Result<Expr, ParseError>)
    ensures
        match parse_bytes(input.spec_bytes()) {
            Ok(t) => r is Ok && r->Ok_0@ == t,
            Err(e) => r is Err && r->Err_0 == e,
        },
{
    match tokenize(input) {
        Err(e) => Err(ParseError::Lexical(e)),
        Ok(toks) => parse_token_list(input.as_bytes(), &toks),
    }
}

/// What a formula is made from: a number or a name.
pub enum Leaf {
    Number(Binary64),
    Name(Seq<u8>),
}

/// The numbers and names of a formula, from left to right.
pub open spec fn leaves(t: Tree) -> Seq<Leaf>
    decreases t,
{
    match t {
        Tree::Number(n) => seq![Leaf::Number(n)],
        Tree::Id(name) => seq![Leaf::Name(name)],
        Tree::Op(_, l, r) => leaves(*l) + leaves(*r),
        Tree::Fn(_, x) => leaves(*x),
    }
}

/// What the token at `i` adds to a formula: a number its value, an
/// identifier before a closing brace its name, any other token nothing.
pub open spec fn token_leaf(s: Seq<u8>, toks: Seq<Token>, i: int) -> Seq<Leaf> {
    match toks[i].1 {
        Tok::Num(n) => seq![Leaf::Number(n)],
        Tok::Id => if token_is(toks, i + 1, Tok::RBrace) {
            seq![Leaf::Name(token_text(s, toks[i]))]
        } else {
            Seq::<Leaf>::empty()
        },
        _ => Seq::<Leaf>::empty(),
    }
}

/// What the tokens from `from` to `to` add to a formula.
pub open spec fn token_leaves(s: Seq<u8>, toks: Seq<Token>, from: int, to: int) -> Seq<Leaf>
    decreases to - from,
{
    if to <= from {
        Seq::<Leaf>::empty()
    } else {
        token_leaves(s, toks, from, to - 1) + token_leaf(s, toks, to - 1)
    }
}

proof fn lemma_token_leaves_split(s: Seq<u8>, toks: Seq<Token>, a: int, b: int, c: int)
    requires
        a <= b <= c,
    ensures
        token_leaves(s, toks, a, c) == token_leaves(s, toks, a, b) + token_leaves(s, toks, b, c),
    decreases c - b,
{
    if b < c {
        lemma_token_leaves_split(s, toks, a, b, c - 1);
        assert(token_leaves(s, toks, a, c) =~= token_leaves(s, toks, a, b) + token_leaves(
            s,
            toks,
            b,
            c,
        ));
    } else {
        assert(token_leaves(s, toks, a, c) =~= token_leaves(s, toks, a, b) + token_leaves(
            s,
            toks,
            b,
            c,
        ));
    }
}

proof fn lemma_token_leaves_one(s: Seq<u8>, toks: Seq<Token>, i: int)
    ensures
        token_leaves(s, toks, i, i + 1) == token_leaf(s, toks, i),
{
    assert(token_leaves(s, toks, i, i) =~= Seq::<Leaf>::empty());
    assert(token_leaves(s, toks, i, i + 1) =~= token_leaf(s, toks, i));
}

proof fn lemma_closed_leaves(
    s: Seq<u8>,
    toks: Seq<Token>,
    open_from: int,
    inner_from: int,
    inner: Result<(Tree, int), ParseError>,
)
    requires
        0 <= open_from < inner_from <= toks.len(),
        closed(toks, inner) is Ok,
        inner is Ok ==> inner_from < inner->Ok_0.1 <= toks.len() && leaves(inner->Ok_0.0)
            == token_leaves(s, toks, inner_from, inner->Ok_0.1),
        token_leaves(s, toks, open_from, inner_from) == Seq::<Leaf>::empty(),
    ensures
        leaves(closed(toks, inner)->Ok_0.0) == token_leaves(
            s,
            toks,
            open_from,
            closed(toks, inner)->Ok_0.1,
        ),
        open_from < closed(toks, inner)->Ok_0.1 <= toks.len(),
{
    let (e, p) = inner->Ok_0;
    lemma_token_leaves_one(s, toks, p);
    lemma_token_leaves_split(s, toks, inner_from, p, p + 1);
    lemma_token_leaves_split(s, toks, open_from, inner_from, p + 1);
    assert(token_leaves(s, toks, open_from, p + 1) =~= leaves(e));
}

proof fn lemma_factor_leaves(s: Seq<u8>, toks: Seq<Token>, pos: int)
    requires
        parse_factor(s, toks, pos) is Ok,
    ensures
        0 <= pos < parse_factor(s, toks, pos)->Ok_0.1 <= toks.len(),
        leaves(parse_factor(s, toks, pos)->Ok_0.0) == token_leaves(
            s,
            toks,
            pos,
            parse_factor(s, toks, pos)->Ok_0.1,
        ),
    decreases toks.len() - pos, 0int,
{
    lemma_token_leaves_one(s, toks, pos);
    match toks[pos].1 {
        Tok::Num(n) => {},
        Tok::LBrace => {
            lemma_token_leaves_one(s, toks, pos + 1);
            lemma_token_leaves_one(s, toks, pos + 2);
            lemma_token_leaves_split(s, toks, pos, pos + 1, pos + 2);
            lemma_token_leaves_split(s, toks, pos, pos + 2, pos + 3);
            assert(token_leaves(s, toks, pos, pos + 3) =~= seq![
                Leaf::Name(token_text(s, toks[pos + 1])),
            ]);
        },
        Tok::LParen => {
            let inner = parse_expr(s, toks, pos + 1);
            if inner is Ok {
                lemma_expr_leaves(s, toks, pos + 1);
            }
            lemma_closed_leaves(s, toks, pos, pos + 1, inner);
        },
        Tok::Id => {
            let inner = parse_expr(s, toks, pos + 2);
            if inner is Ok {
                lemma_expr_leaves(s, toks, pos + 2);
            }
            lemma_token_leaves_one(s, toks, pos + 1);
            lemma_token_leaves_split(s, toks, pos, pos + 1, pos + 2);
            assert(token_leaves(s, toks, pos, pos + 2) =~= Seq::<Leaf>::empty());
            lemma_closed_leaves(s, toks, pos, pos + 2, inner);
        },
        _ => {},
    }
}

proof fn lemma_term_rest_leaves(s: Seq<u8>, toks: Seq<Token>, left: Tree, pos: int)
    requires
        0 <= pos <= toks.len(),
        term_rest(s, toks, left, pos) is Ok,
    ensures
        pos <= term_rest(s, toks, left, pos)->Ok_0.1 <= toks.len(),
        leaves(term_rest(s, toks, left, pos)->Ok_0.0) == leaves(left) + token_leaves(
            s,
            toks,
            pos,
            term_rest(s, toks, left, pos)->Ok_0.1,
        ),
    decreases toks.len() - pos, 1int,
{
    if pos < toks.len() && multiplicative(toks[pos].1) is Some {
        lemma_factor_leaves(s, toks, pos + 1);
        let (right, p) = parse_factor(s, toks, pos + 1)->Ok_0;
        let joined = Tree::Op(multiplicative(toks[pos].1)->0, Box::new(left), Box::new(right));
        lemma_term_rest_leaves(s, toks, joined, p);
        let end = term_rest(s, toks, joined, p)->Ok_0.1;
        lemma_token_leaves_one(s, toks, pos);
        lemma_token_leaves_split(s, toks, pos, pos + 1, p);
        lemma_token_leaves_split(s, toks, pos, p, end);
        assert(leaves(joined) + token_leaves(s, toks, p, end) =~= leaves(left) + token_leaves(
            s,
            toks,
            pos,
            end,
        ));
    } else {
        assert(leaves(left) + token_leaves(s, toks, pos, pos) =~= leaves(left));
    }
}

proof fn lemma_term_leaves(s: Seq<u8>, toks: Seq<Token>, pos: int)
    requires
        parse_term(s, toks, pos) is Ok,
    ensures
        0 <= pos < parse_term(s, toks, pos)->Ok_0.1 <= toks.len(),
        leaves(parse_term(s, toks, pos)->Ok_0.0) == token_leaves(
            s,
            toks,
            pos,
            parse_term(s, toks, pos)->Ok_0.1,
        ),
    decreases toks.len() - pos, 2int,
{
    lemma_factor_leaves(s, toks, pos);
    let (left, p) = parse_factor(s, toks, pos)->Ok_0;
    lemma_term_rest_leaves(s, toks, left, p);
    lemma_token_leaves_split(s, toks, pos, p, term_rest(s, toks, left, p)->Ok_0.1);
}

proof fn lemma_expr_rest_leaves(s: Seq<u8>, toks: Seq<Token>, left: Tree, pos: int)
    requires
        0 <= pos <= toks.len(),
        expr_rest(s, toks, left, pos) is Ok,
    ensures
        pos <= expr_rest(s, toks, left, pos)->Ok_0.1 <= toks.len(),
        leaves(expr_rest(s, toks, left, pos)->Ok_0.0) == leaves(left) + token_leaves(
            s,
            toks,
            pos,
            expr_rest(s, toks, left, pos)->Ok_0.1,
        ),
    decreases toks.len() - pos, 3int,
{
    if pos < toks.len() && additive(toks[pos].1) is Some {
        lemma_term_leaves(s, toks, pos + 1);
        let (right, p) = parse_term(s, toks, pos + 1)->Ok_0;
        let joined = Tree::Op(additive(toks[pos].1)->0, Box::new(left), Box::new(right));
        lemma_expr_rest_leaves(s, toks, joined, p);
        let end = expr_rest(s, toks, joined, p)->Ok_0.1;
        lemma_token_leaves_one(s, toks, pos);
        lemma_token_leaves_split(s, toks, pos, pos + 1, p);
        lemma_token_leaves_split(s, toks, pos, p, end);
        assert(leaves(joined) + token_leaves(s, toks, p, end) =~= leaves(left) + token_leaves(
            s,
            toks,
            pos,
            end,
        ));
    } else {
        assert(leaves(left) + token_leaves(s, toks, pos, pos) =~= leaves(left));
    }
}

proof fn lemma_expr_leaves(s: Seq<u8>, toks: Seq<Token>, pos: int)
    requires
        parse_expr(s, toks, pos) is Ok,
    ensures
        0 <= pos < parse_expr(s, toks, pos)->Ok_0.1 <= toks.len(),
        leaves(parse_expr(s, toks, pos)->Ok_0.0) == token_leaves(
            s,
            toks,
            pos,
            parse_expr(s, toks, pos)->Ok_0.1,
        ),
    decreases toks.len() - pos, 4int,
{
    lemma_term_leaves(s, toks, pos);
    let (left, p) = parse_term(s, toks, pos)->Ok_0;
    lemma_expr_rest_leaves(s, toks, left, p);
    lemma_token_leaves_split(s, toks, pos, p, expr_rest(s, toks, left, p)->Ok_0.1);
}

/// A formula holds what its text holds, in the same order: the numbers and
/// names of the tree, read from left to right, are the number tokens and
/// the names between braces of the whole text, nothing left out and nothing
/// added.
pub proof fn lemma_leaves_in_order(s: Seq<u8>, toks: Seq<Token>)
    requires
        parse_tokens(s, toks) is Ok,
    ensures
        leaves(parse_tokens(s, toks)->Ok_0) == token_leaves(s, toks, 0, toks.len() as int),
{
    lemma_expr_leaves(s, toks, 0);
}

/// What a token adds to the depth of nesting: an opening parenthesis one,
/// a closing parenthesis minus one, any other token nothing.
pub open spec fn nesting(tok: Tok) -> int {
    match tok {
        Tok::LParen => 1,
        Tok::RParen => -1,
        _ => 0,
    }
}

/// How much deeper the nesting is behind the tokens from `from` to `to`.
pub open spec fn depth(toks: Seq<Token>, from: int, to: int) -> int
    decreases to - from,
{
    if to <= from {
        0
    } else {
        depth(toks, from, to - 1) + nesting(toks[to - 1].1)
    }
}

proof fn lemma_depth_split(toks: Seq<Token>, a: int, b: int, c: int)
    requires
        a <= b <= c,
    ensures
        depth(toks, a, c) == depth(toks, a, b) + depth(toks, b, c),
    decreases c - b,
{
    if b < c {
        lemma_depth_split(toks, a, b, c - 1);
    }
}

proof fn lemma_depth_one(toks: Seq<Token>, i: int)
    ensures
        depth(toks, i, i + 1) == nesting(toks[i].1),
{
    assert(depth(toks, i, i) == 0);
}

proof fn lemma_factor_depth(s: Seq<u8>, toks: Seq<Token>, pos: int)
    requires
        parse_factor(s, toks, pos) is Ok,
    ensures
        0 <= pos < parse_factor(s, toks, pos)->Ok_0.1 <= toks.len(),
        depth(toks, pos, parse_factor(s, toks, pos)->Ok_0.1) == 0,
    decreases toks.len() - pos, 0int,
{
    lemma_depth_one(toks, pos);
    match toks[pos].1 {
        Tok::Num(n) => {},
        Tok::LBrace => {
            lemma_depth_one(toks, pos + 1);
            lemma_depth_one(toks, pos + 2);
            lemma_depth_split(toks, pos, pos + 1, pos + 2);
            lemma_depth_split(toks, pos, pos + 2, pos + 3);
        },
        Tok::LParen => {
            lemma_expr_depth(s, toks, pos + 1);
            let p = parse_expr(s, toks, pos + 1)->Ok_0.1;
            lemma_depth_one(toks, p);
            lemma_depth_split(toks, pos, pos + 1, p);
            lemma_depth_split(toks, pos, p, p + 1);
        },
        Tok::Id => {
            lemma_expr_depth(s, toks, pos + 2);
            let p = parse_expr(s, toks, pos + 2)->Ok_0.1;
            lemma_depth_one(toks, pos + 1);
            lemma_depth_one(toks, p);
            lemma_depth_split(toks, pos, pos + 1, pos + 2);
            lemma_depth_split(toks, pos, pos + 2, p);
            lemma_depth_split(toks, pos, p, p + 1);
        },
        _ => {},
    }
}

proof fn lemma_term_rest_depth(s: Seq<u8>, toks: Seq<Token>, left: Tree, pos: int)
    requires
        0 <= pos <= toks.len(),
        term_rest(s, toks, left, pos) is Ok,
    ensures
        pos <= term_rest(s, toks, left, pos)->Ok_0.1 <= toks.len(),
        depth(toks, pos, term_rest(s, toks, left, pos)->Ok_0.1) == 0,
    decreases toks.len() - pos, 1int,
{
    if pos < toks.len() && multiplicative(toks[pos].1) is Some {
        lemma_factor_depth(s, toks, pos + 1);
        let (right, p) = parse_factor(s, toks, pos + 1)->Ok_0;
        let joined = Tree::Op(multiplicative(toks[pos].1)->0, Box::new(left), Box::new(right));
        lemma_term_rest_depth(s, toks, joined, p);
        let end = term_rest(s, toks, joined, p)->Ok_0.1;
        lemma_depth_one(toks, pos);
        lemma_depth_split(toks, pos, pos + 1, p);
        lemma_depth_split(toks, pos, p, end);
    }
}

proof fn lemma_term_depth(s: Seq<u8>, toks: Seq<Token>, pos: int)
    requires
        parse_term(s, toks, pos) is Ok,
    ensures
        0 <= pos < parse_term(s, toks, pos)->Ok_0.1 <= toks.len(),
        depth(toks, pos, parse_term(s, toks, pos)->Ok_0.1) == 0,
    decreases toks.len() - pos, 2int,
{
    lemma_factor_depth(s, toks, pos);
    let (left, p) = parse_factor(s, toks, pos)->Ok_0;
    lemma_term_rest_depth(s, toks, left, p);
    lemma_depth_split(toks, pos, p, term_rest(s, toks, left, p)->Ok_0.1);
}

proof fn lemma_expr_rest_depth(s: Seq<u8>, toks: Seq<Token>, left: Tree, pos: int)
    requires
        0 <= pos <= toks.len(),
        expr_rest(s, toks, left, pos) is Ok,
    ensures
        pos <= expr_rest(s, toks, left, pos)->Ok_0.1 <= toks.len(),
        depth(toks, pos, expr_rest(s, toks, left, pos)->Ok_0.1) == 0,
    decreases toks.len() - pos, 3int,
{
    if pos < toks.len() && additive(toks[pos].1) is Some {
        lemma_term_depth(s, toks, pos + 1);
        let (right, p) = parse_term(s, toks, pos + 1)->Ok_0;
        let joined = Tree::Op(additive(toks[pos].1)->0, Box::new(left), Box::new(right));
        lemma_expr_rest_depth(s, toks, joined, p);
        let end = expr_rest(s, toks, joined, p)->Ok_0.1;
        lemma_depth_one(toks, pos);
        lemma_depth_split(toks, pos, pos + 1, p);
        lemma_depth_split(toks, pos, p, end);
    }
}

proof fn lemma_expr_depth(s: Seq<u8>, toks: Seq<Token>, pos: int)
    requires
        parse_expr(s, toks, pos) is Ok,
    ensures
        0 <= pos < parse_expr(s, toks, pos)->Ok_0.1 <= toks.len(),
        depth(toks, pos, parse_expr(s, toks, pos)->Ok_0.1) == 0,
    decreases toks.len() - pos, 4int,
{
    lemma_term_depth(s, toks, pos);
    let (left, p) = parse_term(s, toks, pos)->Ok_0;
    lemma_expr_rest_depth(s, toks, left, p);
    lemma_depth_split(toks, pos, p, expr_rest(s, toks, left, p)->Ok_0.1);
}

/// Only texts whose parentheses balance are formulas: where a text parses,
/// it holds as many closing parentheses as opening ones.
pub proof fn lemma_parentheses_balance(s: Seq<u8>, toks: Seq<Token>)
    requires
        parse_tokens(s, toks) is Ok,
    ensures
        depth(toks, 0, toks.len() as int) == 0,
{
    lemma_expr_depth(s, toks, 0);
}

/// Nothing parses that does not hold at least one token; a text of blanks
/// alone is no formula.
pub proof fn lemma_no_empty_formula(s: Seq<u8>, toks: Seq<Token>)
    requires
        toks.len() == 0,
    ensures
        parse_tokens(s, toks) == Err::<Tree, ParseError>(ParseError::UnexpectedEnd),
{
}

} // verus!
