//! Expression trees and their mathematical model.

use vstd::prelude::*;
use crate::rational::Rational;

verus! {

/// Binary operators; `Adjacent` is the implicit operator between juxtaposed operands.
#[derive(Debug, Clone, Copy, PartialEq, Eq, Structural)]
pub enum Op {
    Add,
    Subtract,
    Multiply,
    Divide,
    Modulus,
    Exponent,
    Equals,
    Adjacent,
}

#[derive(Debug, PartialEq, Eq)]
pub enum Expr {
    Number(Rational),
    Name(String),
    BinaryExpr(Box<Expr>, Op, Box<Expr>),
    Boolean(bool),
    Tuple(Vec<Expr>),
}

/// The model of an expression: numbers as `(numerator, denominator)`, names as characters.
pub enum Term {
    Num(int, int),
    Name(Seq<char>),
    Bin(Box<Term>, Op, Box<Term>),
    Bool(bool),
    Tup(Seq<Term>),
}

impl Expr {
    pub open spec fn term(self) -> Term
        decreases self,
    {
        match self {
            Expr::Number(r) => Term::Num(r@.0, r@.1),
            Expr::Name(s) => Term::Name(s@),
            Expr::BinaryExpr(l, op, r) => Term::Bin(Box::new(l.term()), op, Box::new(r.term())),
            Expr::Boolean(b) => Term::Bool(b),
            Expr::Tuple(v) => Term::Tup(terms_of(v@)),
        }
    }

    /// Every number in the tree is well formed.
    pub open spec fn wf(self) -> bool
        decreases self,
    {
        match self {
            Expr::Number(r) => r.wf(),
            Expr::BinaryExpr(l, _, r) => l.wf() && r.wf(),
            Expr::Tuple(v) => all_wf(v@),
            _ => true,
        }
    }

    /// A deep copy.
    pub fn duplicate(&self) -> (r: Expr)
        ensures
            r.term() == self.term(),
            r.wf() == self.wf(),
        decreases self,
    {
        match self {
            Expr::Number(n) => Expr::Number(n.duplicate()),
            Expr::Name(s) => Expr::Name(s.clone()),
            Expr::BinaryExpr(l, op, r) => {
                let l2 = l.duplicate();
                let r2 = r.duplicate();
                Expr::BinaryExpr(Box::new(l2), *op, Box::new(r2))
            },
            Expr::Boolean(b) => Expr::Boolean(*b),
            Expr::Tuple(v) => {
                let mut out: Vec<Expr> = Vec::new();
                let mut i: usize = 0;
                while i < v.len()
                    invariant
                        *self == Expr::Tuple(*v),
                        i <= v.len(),
                        out@.len() == i,
                        terms_of(out@) == terms_of(v@.take(i as int)),
                        all_wf(out@) == all_wf(v@.take(i as int)),
                    decreases v.len() - i,
                {
                    proof {
                        vstd::std_specs::vec::axiom_vec_index_decreases(*v, i as int);
                        assert(decreases_to!(*self => (*self)->Tuple_0));
                    }
                    let e = v[i].duplicate();
                    proof {
                        lemma_terms_push(out@, e);
                        lemma_terms_push(v@.take(i as int), v@[i as int]);
                        assert(v@.take(i as int).push(v@[i as int]) == v@.take(i + 1));
                    }
                    out.push(e);
                    i = i + 1;
                }
                proof {
                    assert(v@.take(v@.len() as int) == v@);
                }
                Expr::Tuple(out)
            },
        }
    }
}

pub open spec fn terms_of(s: Seq<Expr>) -> Seq<Term>
    decreases s,
{
    if s.len() == 0 {
        Seq::empty()
    } else {
        seq![s[0].term()] + terms_of(s.subrange(1, s.len() as int))
    }
}

pub open spec fn all_wf(s: Seq<Expr>) -> bool
    decreases s,
{
    if s.len() == 0 {
        true
    } else {
        s[0].wf() && all_wf(s.subrange(1, s.len() as int))
    }
}

pub proof fn lemma_terms_index(s: Seq<Expr>, i: int)
    requires
        0 <= i < s.len(),
    ensures
        terms_of(s).len() == s.len(),
        terms_of(s)[i] == s[i].term(),
        all_wf(s) ==> s[i].wf(),
    decreases s.len(),
{
    let rest = s.subrange(1, s.len() as int);
    lemma_terms_len(rest);
    if i > 0 {
        lemma_terms_index(rest, i - 1);
        assert(rest[i - 1] == s[i]);
    }
}

pub proof fn lemma_terms_len(s: Seq<Expr>)
    ensures
        terms_of(s).len() == s.len(),
    decreases s.len(),
{
    if s.len() > 0 {
        lemma_terms_len(s.subrange(1, s.len() as int));
    }
}

pub proof fn lemma_terms_push(s: Seq<Expr>, e: Expr)
    ensures
        terms_of(s.push(e)) == terms_of(s).push(e.term()),
        all_wf(s.push(e)) == (all_wf(s) && e.wf()),
        terms_of(s).len() == s.len(),
    decreases s.len(),
{
    let t = s.push(e);
    assert(terms_of(t) == seq![t[0].term()] + terms_of(t.subrange(1, t.len() as int)));
    assert(all_wf(t) == (t[0].wf() && all_wf(t.subrange(1, t.len() as int))));
    if s.len() == 0 {
        assert(t.subrange(1, t.len() as int) =~= Seq::<Expr>::empty());
        assert(t[0] == e);
        assert(seq![e.term()] + Seq::<Term>::empty() =~= Seq::<Term>::empty().push(e.term()));
    } else {
        let rest = s.subrange(1, s.len() as int);
        lemma_terms_push(rest, e);
        assert(t[0] == s[0]);
        assert(t.subrange(1, t.len() as int) =~= rest.push(e));
        assert(seq![s[0].term()] + terms_of(rest).push(e.term()) =~= (seq![s[0].term()]
            + terms_of(rest)).push(e.term()));
    }
}

} // verus!
