//! Precedence climbing from tokens to an expression tree.
//!
//! From loosest to tightest: `=` (at most one), `+ -` (left), `* / %` and
//! juxtaposition (left), `^` (right), then a number or a name.

use vstd::prelude::*;
use crate::expr::{Expr, Op, Term};
use crate::tokenizer::{toks_of, Symbol, Tok, Token};

verus! {

#[derive(Debug, Clone, Copy, PartialEq, Eq, Structural)]
pub enum ParseError {
    /// No tokens at all.
    Empty,
    /// The token at this position cannot stand there.
    UnexpectedToken(usize),
    /// The tokens ended where an operand was needed.
    UnexpectedEnd,
}

pub open spec fn op_of(s: Symbol) -> Op {
    match s {
        Symbol::Add => Op::Add,
        Symbol::Subtract => Op::Subtract,
        Symbol::Multiply => Op::Multiply,
        Symbol::Divide => Op::Divide,
        Symbol::Modulus => Op::Modulus,
        Symbol::Exponent => Op::Exponent,
        Symbol::Equals => Op::Equals,
    }
}

/// A parse of a part of the tokens: the tree and the position after it.
pub type Parsed = Result<(Term, int), ParseError>;

pub open spec fn p_primary(ts: Seq<Tok>, i: int) -> Parsed {
    if i < 0 || i >= ts.len() {
        Err(ParseError::UnexpectedEnd)
    } else {
        match ts[i] {
            Tok::Num(n, d) => Ok((Term::Num(n, d), i + 1)),
            Tok::Name(s) => Ok((Term::Name(s), i + 1)),
            Tok::Op(_) => Err(ParseError::UnexpectedToken(i as usize)),
        }
    }
}

pub open spec fn p_exponent(ts: Seq<Tok>, i: int) -> Parsed
    decreases ts.len() - i,
{
    match p_primary(ts, i) {
        Err(e) => Err(e),
        Ok((b, j)) => if j < ts.len() && ts[j] == Tok::Op(Symbol::Exponent) {
            match p_exponent(ts, j + 1) {
                Err(e) => Err(e),
                Ok((e, k)) => Ok((Term::Bin(Box::new(b), Op::Exponent, Box::new(e)), k)),
            }
        } else {
            Ok((b, j))
        },
    }
}

/// The operator that continues a product at a token, if any: an explicit one, or
/// juxtaposition before a number or a name.
pub open spec fn product_op(t: Tok) -> Option<Op> {
    match t {
        Tok::Op(Symbol::Multiply) => Some(Op::Multiply),
        Tok::Op(Symbol::Divide) => Some(Op::Divide),
        Tok::Op(Symbol::Modulus) => Some(Op::Modulus),
        Tok::Op(_) => None,
        _ => Some(Op::Adjacent),
    }
}

pub open spec fn p_product_rest(ts: Seq<Tok>, i: int, acc: Term) -> Parsed
    decreases ts.len() - i,
    via p_product_rest_decreases
{
    if i < 0 || i >= ts.len() {
        Ok((acc, i))
    } else {
        match product_op(ts[i]) {
            None => Ok((acc, i)),
            Some(op) => {
                let start = if op == Op::Adjacent { i } else { i + 1 };
                match p_exponent(ts, start) {
                    Err(e) => Err(e),
                    Ok((r, j)) => p_product_rest(ts, j, Term::Bin(Box::new(acc), op, Box::new(r))),
                }
            },
        }
    }
}

pub open spec fn p_product(ts: Seq<Tok>, i: int) -> Parsed {
    match p_exponent(ts, i) {
        Err(e) => Err(e),
        Ok((l, j)) => p_product_rest(ts, j, l),
    }
}

pub open spec fn sum_op(t: Tok) -> Option<Op> {
    match t {
        Tok::Op(Symbol::Add) => Some(Op::Add),
        Tok::Op(Symbol::Subtract) => Some(Op::Subtract),
        _ => None,
    }
}

pub open spec fn p_sum_rest(ts: Seq<Tok>, i: int, acc: Term) -> Parsed
    decreases ts.len() - i,
    via p_sum_rest_decreases
{
    if i < 0 || i >= ts.len() {
        Ok((acc, i))
    } else {
        match sum_op(ts[i]) {
            None => Ok((acc, i)),
            Some(op) => match p_product(ts, i + 1) {
                Err(e) => Err(e),
                Ok((r, j)) => p_sum_rest(ts, j, Term::Bin(Box::new(acc), op, Box::new(r))),
            },
        }
    }
}

pub open spec fn p_sum(ts: Seq<Tok>, i: int) -> Parsed {
    match p_product(ts, i) {
        Err(e) => Err(e),
        Ok((l, j)) => p_sum_rest(ts, j, l),
    }
}

pub open spec fn p_equality(ts: Seq<Tok>, i: int) -> Parsed {
    match p_sum(ts, i) {
        Err(e) => Err(e),
        Ok((l, j)) => if j < ts.len() && ts[j] == Tok::Op(Symbol::Equals) {
            match p_sum(ts, j + 1) {
                Err(e) => Err(e),
                Ok((r, k)) => Ok((Term::Bin(Box::new(l), Op::Equals, Box::new(r)), k)),
            }
        } else {
            Ok((l, j))
        },
    }
}

/// The tree for the whole token sequence.
pub open spec fn parse_spec(ts: Seq<Tok>) -> Result<Term, ParseError> {
    if ts.len() == 0 {
        Err(ParseError::Empty)
    } else {
        match p_equality(ts, 0) {
            Err(e) => Err(e),
            Ok((t, k)) => if k < ts.len() {
                Err(ParseError::UnexpectedToken(k as usize))
            } else {
                Ok(t)
            },
        }
    }
}

pub proof fn lemma_exponent_advances(ts: Seq<Tok>, i: int)
    ensures
        p_exponent(ts, i) is Ok ==> i < p_exponent(ts, i)->Ok_0.1 <= ts.len(),
    decreases ts.len() - i,
{
    if 0 <= i < ts.len() && i + 1 < ts.len() && ts[i + 1] == Tok::Op(Symbol::Exponent) {
        lemma_exponent_advances(ts, i + 2);
    }
}

pub proof fn lemma_product_rest_advances(ts: Seq<Tok>, i: int, acc: Term)
    requires
        0 <= i <= ts.len(),
    ensures
        p_product_rest(ts, i, acc) is Ok ==> i <= p_product_rest(ts, i, acc)->Ok_0.1 <= ts.len(),
    decreases ts.len() - i,
{
    if i < ts.len() {
        if let Some(op) = product_op(ts[i]) {
            let start = if op == Op::Adjacent { i } else { i + 1 };
            lemma_exponent_advances(ts, start);
            if let Ok((r, j)) = p_exponent(ts, start) {
                lemma_product_rest_advances(ts, j, Term::Bin(Box::new(acc), op, Box::new(r)));
            }
        }
    }
}

pub proof fn lemma_product_advances(ts: Seq<Tok>, i: int)
    ensures
        p_product(ts, i) is Ok ==> i < p_product(ts, i)->Ok_0.1 <= ts.len(),
{
    lemma_exponent_advances(ts, i);
    if let Ok((l, j)) = p_exponent(ts, i) {
        lemma_product_rest_advances(ts, j, l);
    }
}

#[via_fn]
proof fn p_product_rest_decreases(ts: Seq<Tok>, i: int, acc: Term) {
    if 0 <= i < ts.len() {
        if let Some(op) = product_op(ts[i]) {
            let start = if op == Op::Adjacent { i } else { i + 1 };
            lemma_exponent_advances(ts, start);
        }
    }
}

#[via_fn]
proof fn p_sum_rest_decreases(ts: Seq<Tok>, i: int, acc: Term) {
    lemma_product_advances(ts, i + 1);
}

pub open spec fn tokens_wf(tokens: Seq<Token>) -> bool {
    forall|i: int| 0 <= i < tokens.len() ==> (#[trigger] tokens[i]).wf()
}

/// An executable parse result agrees with its model.
pub open spec fn agrees(r: Result<(Expr, usize), ParseError>, p: Parsed) -> bool {
    match r {
        Ok((e, j)) => e.wf() && p == Ok::<(Term, int), ParseError>((e.term(), j as int)),
        Err(x) => p == Err::<(Term, int), ParseError>(x),
    }
}

fn parse_primary(tokens: &Vec<Token>, i: usize) -> (r: Result<(Expr, usize), ParseError>)
    requires
        tokens_wf(tokens@),
    ensures
        agrees(r, p_primary(toks_of(tokens@), i as int)),
{
    if i >= tokens.len() {
        return Err(ParseError::UnexpectedEnd);
    }
    match &tokens[i] {
        Token::Integer(n) => Ok((Expr::Number(n.duplicate()), i + 1)),
        Token::Name(s) => Ok((Expr::Name(s.clone()), i + 1)),
        Token::Operator(_) => Err(ParseError::UnexpectedToken(i)),
    }
}

fn is_symbol(tokens: &Vec<Token>, i: usize, sym: Symbol) -> (r: bool)
    ensures
        r == (i < tokens@.len() && toks_of(tokens@)[i as int] == Tok::Op(sym)),
{
    if i < tokens.len() {
        match &tokens[i] {
            Token::Operator(s) => *s == sym,
            _ => false,
        }
    } else {
        false
    }
}

fn parse_exponent(tokens: &Vec<Token>, i: usize) -> (r: Result<(Expr, usize), ParseError>)
    requires
        tokens_wf(tokens@),
    ensures
        agrees(r, p_exponent(toks_of(tokens@), i as int)),
    decreases tokens@.len() - i,
{
    let (base, j) = match parse_primary(tokens, i) {
        Ok(p) => p,
        Err(e) => return Err(e),
    };
    if j < tokens.len() && is_symbol(tokens, j, Symbol::Exponent) {
        match parse_exponent(tokens, j + 1) {
            Ok((e, k)) => Ok((Expr::BinaryExpr(Box::new(base), Op::Exponent, Box::new(e)), k)),
            Err(e) => Err(e),
        }
    } else {
        Ok((base, j))
    }
}

fn product_op_at(tokens: &Vec<Token>, i: usize) -> (r: Option<Op>)
    requires
        i < tokens@.len(),
    ensures
        r == product_op(toks_of(tokens@)[i as int]),
{
    match &tokens[i] {
        Token::Operator(Symbol::Multiply) => Some(Op::Multiply),
        Token::Operator(Symbol::Divide) => Some(Op::Divide),
        Token::Operator(Symbol::Modulus) => Some(Op::Modulus),
        Token::Operator(_) => None,
        _ => Some(Op::Adjacent),
    }
}

fn parse_product(tokens: &Vec<Token>, i: usize) -> (r: Result<(Expr, usize), ParseError>)
    requires
        tokens_wf(tokens@),
    ensures
        agrees(r, p_product(toks_of(tokens@), i as int)),
{
    let ghost ts = toks_of(tokens@);
    proof {
        lemma_exponent_advances(ts, i as int);
    }
    let (mut acc, mut k) = match parse_exponent(tokens, i) {
        Ok(p) => p,
        Err(e) => return Err(e),
    };
    while k < tokens.len()
        invariant
            tokens_wf(tokens@),
            ts == toks_of(tokens@),
            k <= tokens@.len(),
            acc.wf(),
            p_product(ts, i as int) == p_product_rest(ts, k as int, acc.term()),
        ensures
            k >= tokens@.len() || product_op(ts[k as int]) is None,
        decreases tokens@.len() - k,
    {
        let op = match product_op_at(tokens, k) {
            Some(op) => op,
            None => break,
        };
        let start = if op == Op::Adjacent { k } else { k + 1 };
        proof {
            lemma_exponent_advances(ts, start as int);
        }
        let (rhs, j) = match parse_exponent(tokens, start) {
            Ok(p) => p,
            Err(e) => return Err(e),
        };
        acc = Expr::BinaryExpr(Box::new(acc), op, Box::new(rhs));
        k = j;
    }
    Ok((acc, k))
}

fn sum_op_at(tokens: &Vec<Token>, i: usize) -> (r: Option<Op>)
    requires
        i < tokens@.len(),
    ensures
        r == sum_op(toks_of(tokens@)[i as int]),
{
    match &tokens[i] {
        Token::Operator(Symbol::Add) => Some(Op::Add),
        Token::Operator(Symbol::Subtract) => Some(Op::Subtract),
        _ => None,
    }
}

fn parse_sum(tokens: &Vec<Token>, i: usize) -> (r: Result<(Expr, usize), ParseError>)
    requires
        tokens_wf(tokens@),
    ensures
        agrees(r, p_sum(toks_of(tokens@), i as int)),
{
    let ghost ts = toks_of(tokens@);
    proof {
        lemma_product_advances(ts, i as int);
    }
    let (mut acc, mut k) = match parse_product(tokens, i) {
        Ok(p) => p,
        Err(e) => return Err(e),
    };
    while k < tokens.len()
        invariant
            tokens_wf(tokens@),
            ts == toks_of(tokens@),
            k <= tokens@.len(),
            acc.wf(),
            p_sum(ts, i as int) == p_sum_rest(ts, k as int, acc.term()),
        ensures
            k >= tokens@.len() || sum_op(ts[k as int]) is None,
        decreases tokens@.len() - k,
    {
        let op = match sum_op_at(tokens, k) {
            Some(op) => op,
            None => break,
        };
        proof {
            lemma_product_advances(ts, k + 1);
        }
        let (rhs, j) = match parse_product(tokens, k + 1) {
            Ok(p) => p,
            Err(e) => return Err(e),
        };
        acc = Expr::BinaryExpr(Box::new(acc), op, Box::new(rhs));
        k = j;
    }
    Ok((acc, k))
}

fn parse_equality(tokens: &Vec<Token>) -> (r: Result<(Expr, usize), ParseError>)
    requires
        tokens_wf(tokens@),
    ensures
        agrees(r, p_equality(toks_of(tokens@), 0)),
{
    let (lhs, j) = match parse_sum(tokens, 0) {
        Ok(p) => p,
        Err(e) => return Err(e),
    };
    if j < tokens.len() && is_symbol(tokens, j, Symbol::Equals) {
        match parse_sum(tokens, j + 1) {
            Ok((rhs, k)) => Ok((Expr::BinaryExpr(Box::new(lhs), Op::Equals, Box::new(rhs)), k)),
            Err(e) => Err(e),
        }
    } else {
        Ok((lhs, j))
    }
}

/// Parses a whole token sequence into one expression.
pub fn parse(tokens: &Vec<Token>) -> (r: Result<Expr, ParseError>)
    requires
        tokens_wf(tokens@),
    ensures
        match r {
            Ok(e) => e.wf() && parse_spec(toks_of(tokens@)) == Ok::<Term, ParseError>(e.term()),
            Err(x) => parse_spec(toks_of(tokens@)) == Err::<Term, ParseError>(x),
        },
{
    if tokens.len() == 0 {
        return Err(ParseError::Empty);
    }
    let (e, k) = match parse_equality(tokens) {
        Ok(p) => p,
        Err(x) => return Err(x),
    };
    if k < tokens.len() {
        Err(ParseError::UnexpectedToken(k))
    } else {
        Ok(e)
    }
}

} // verus!
