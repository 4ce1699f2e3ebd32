//! Properties of evaluation that relate several calls.

use vstd::prelude::*;
use crate::context::{lemma_find_range, lookup, mark, Entry};
use crate::evaluator::{combine, eval, eval_all, Fault};
use crate::expr::{Op, Term};
use crate::number_theory::{lemma_normalize, lemma_reduced_unique};
use crate::rational::{is_reduced, rat_div, rat_mul, same_value};

verus! {

/// `t` is what evaluation gives back unchanged under `env`: no bound name, and no
/// operator node that a further step would reduce.
pub open spec fn settled(t: Term, env: Seq<Entry>) -> bool
    decreases t,
{
    match t {
        Term::Name(n) => lookup(env, n) < 0,
        Term::Bin(a, op, b) => settled(*a, env) && settled(*b, env) && combine(*a, op, *b) == Ok::<
            Term,
            Fault,
        >(t),
        Term::Tup(s) => forall|i: int| 0 <= i < s.len() ==> settled(#[trigger] s[i], env),
        _ => true,
    }
}

proof fn lemma_lookup_mark(env: Seq<Entry>, n: Seq<char>, i: int, j: int)
    requires
        0 <= i < env.len(),
    ensures
        crate::context::find_from(mark(env, i), n, j) == crate::context::find_from(env, n, j),
    decreases env.len() - j,
{
    if 0 <= j < env.len() {
        lemma_lookup_mark(env, n, i, j + 1);
    }
}

proof fn lemma_settled_mark(t: Term, env: Seq<Entry>, i: int)
    requires
        0 <= i < env.len(),
        settled(t, mark(env, i)),
    ensures
        settled(t, env),
    decreases t,
{
    match t {
        Term::Name(n) => {
            lemma_lookup_mark(env, n, i, 0);
        },
        Term::Bin(a, op, b) => {
            lemma_settled_mark(*a, env, i);
            lemma_settled_mark(*b, env, i);
        },
        Term::Tup(s) => {
            assert forall|k: int| 0 <= k < s.len() implies settled(#[trigger] s[k], env) by {
                lemma_settled_mark(s[k], env, i);
            }
        },
        _ => {},
    }
}

proof fn lemma_eval_all_fixed(s: Seq<Term>, env: Seq<Entry>)
    requires
        forall|i: int| 0 <= i < s.len() ==> settled(#[trigger] s[i], env),
    ensures
        eval_all(s, env) == Ok::<Seq<Term>, Fault>(s),
    decreases s,
{
    if s.len() > 0 {
        let front = s.subrange(0, s.len() - 1);
        lemma_eval_all_fixed(front, env);
        lemma_settled_fixed(s[s.len() - 1], env);
        assert(front.push(s[s.len() - 1]) =~= s);
    } else {
        assert(s =~= Seq::<Term>::empty());
    }
}

proof fn lemma_settled_fixed(t: Term, env: Seq<Entry>)
    requires
        settled(t, env),
    ensures
        eval(t, env) == Ok::<Term, Fault>(t),
    decreases t,
{
    match t {
        Term::Bin(a, op, b) => {
            lemma_settled_fixed(*a, env);
            lemma_settled_fixed(*b, env);
        },
        Term::Tup(s) => {
            lemma_eval_all_fixed(s, env);
        },
        _ => {},
    }
}

proof fn lemma_eval_all_settled(s: Seq<Term>, env: Seq<Entry>)
    requires
        eval_all(s, env) is Ok,
    ensures
        eval_all(s, env)->Ok_0.len() == s.len(),
        forall|i: int|
            0 <= i < s.len() ==> settled(#[trigger] eval_all(s, env)->Ok_0[i], env),
    decreases crate::context::idle(env), s,
{
    if s.len() > 0 {
        let front = s.subrange(0, s.len() - 1);
        lemma_eval_all_settled(front, env);
        lemma_eval_settled(s[s.len() - 1], env);
    }
}

proof fn lemma_eval_settled(t: Term, env: Seq<Entry>)
    requires
        eval(t, env) is Ok,
    ensures
        settled(eval(t, env)->Ok_0, env),
    decreases crate::context::idle(env), t,
{
    match t {
        Term::Name(n) => {
            lemma_find_range(env, n, 0);
            let i = lookup(env, n);
            if i >= 0 && !env[i].busy {
                crate::context::lemma_idle_mark(env, i);
                lemma_eval_settled(env[i].value, mark(env, i));
                lemma_settled_mark(eval(t, env)->Ok_0, env, i);
            }
        },
        Term::Bin(a, op, b) => {
            lemma_eval_settled(*a, env);
            lemma_eval_settled(*b, env);
        },
        Term::Tup(s) => {
            lemma_eval_all_settled(s, env);
        },
        _ => {},
    }
}

/// Evaluating a result of evaluation again, under the same bindings, gives it back
/// unchanged.
pub proof fn evaluation_is_idempotent(t: Term, env: Seq<Entry>)
    requires
        eval(t, env) is Ok,
    ensures
        eval(eval(t, env)->Ok_0, env) == eval(t, env),
{
    lemma_eval_settled(t, env);
    lemma_settled_fixed(eval(t, env)->Ok_0, env);
}

/// `a / b * b` is `a` again, exactly, for every rational `a` and nonzero rational `b`.
pub proof fn divide_then_multiply_round_trips(a: (int, int), b: (int, int), env: Seq<Entry>)
    requires
        is_reduced(a),
        is_reduced(b),
        b.0 != 0,
    ensures
        eval(
            Term::Bin(
                Box::new(Term::Bin(Box::new(Term::Num(a.0, a.1)), Op::Divide, Box::new(Term::Num(b.0, b.1)))),
                Op::Multiply,
                Box::new(Term::Num(b.0, b.1)),
            ),
            env,
        ) == Ok::<Term, Fault>(Term::Num(a.0, a.1)),
{
    let na = Term::Num(a.0, a.1);
    let nb = Term::Num(b.0, b.1);
    let inner = Term::Bin(Box::new(na), Op::Divide, Box::new(nb));
    assert(eval(na, env) == Ok::<Term, Fault>(na));
    assert(eval(nb, env) == Ok::<Term, Fault>(nb));
    let q = rat_div(a, b);
    assert(eval(inner, env) == Ok::<Term, Fault>(Term::Num(q.0, q.1)));
    assert(a.1 * b.0 != 0) by (nonlinear_arith)
        requires a.1 > 0, b.0 != 0;
    lemma_normalize(a.0 * b.1, a.1 * b.0);
    assert(q.1 * b.1 != 0) by (nonlinear_arith)
        requires q.1 > 0, b.1 > 0;
    let r = rat_mul(q, b);
    lemma_normalize(q.0 * b.0, q.1 * b.1);
    let x = q.1 * b.1 * b.0;
    let e1 = r.0 * (q.1 * b.1);
    let e2 = q.0 * (a.1 * b.0);
    assert(r.0 * a.1 * x == e1 * (a.1 * b.0)) by (nonlinear_arith)
        requires x == q.1 * b.1 * b.0, e1 == r.0 * (q.1 * b.1);
    assert(e1 * (a.1 * b.0) == (q.0 * b.0) * r.1 * (a.1 * b.0));
    assert((q.0 * b.0) * r.1 * (a.1 * b.0) == e2 * (b.0 * r.1)) by (nonlinear_arith)
        requires e2 == q.0 * (a.1 * b.0);
    assert(e2 * (b.0 * r.1) == (a.0 * b.1) * q.1 * (b.0 * r.1));
    assert((a.0 * b.1) * q.1 * (b.0 * r.1) == a.0 * r.1 * x) by (nonlinear_arith)
        requires x == q.1 * b.1 * b.0;
    assert(x != 0) by (nonlinear_arith)
        requires q.1 > 0, b.1 > 0, b.0 != 0, x == q.1 * b.1 * b.0;
    assert(r.0 * a.1 == a.0 * r.1) by (nonlinear_arith)
        requires r.0 * a.1 * x == a.0 * r.1 * x, x != 0;
    assert(same_value(r, a));
    lemma_reduced_unique(r, a);
}

/// `=` on two numbers gives `true` exactly when they are the same number.
pub proof fn equality_is_exact(a: (int, int), b: (int, int), env: Seq<Entry>)
    requires
        is_reduced(a),
        is_reduced(b),
    ensures
        eval(
            Term::Bin(Box::new(Term::Num(a.0, a.1)), Op::Equals, Box::new(Term::Num(b.0, b.1))),
            env,
        ) == Ok::<Term, Fault>(Term::Bool(a == b)),
{
    let na = Term::Num(a.0, a.1);
    let nb = Term::Num(b.0, b.1);
    assert(eval(na, env) == Ok::<Term, Fault>(na));
    assert(eval(nb, env) == Ok::<Term, Fault>(nb));
    if same_value(a, b) {
        lemma_reduced_unique(a, b);
    }
}

} // verus!
