//! Bottom-up reduction of expressions against a context.

use vstd::prelude::*;
use vstd::arithmetic::power::pow;
use crate::context::{idle, lemma_find_range, lemma_idle_mark, lookup, mark, Context, Entry};
use crate::expr::{Expr, Op, Term};
use crate::rational::{
    abs, abs_exact, add_exact, ceil_exact, div_exact, eq_exact, fits_i64, floor_exact, fract_exact,
    is_integer, mul_exact, normalize, rat_abs, rat_add, rat_ceil, rat_div, rat_floor, rat_fract,
    rat_mul, rat_rem, rat_round, rat_sub, rat_trunc, rem_exact, round_exact, same_value,
    sub_exact, trunc_exact, Rational,
};

verus! {

#[derive(Debug, Clone, Copy, PartialEq, Eq, Structural)]
pub enum ArithmeticError {
    DivisionByZero,
}

#[derive(Debug, PartialEq, Eq)]
pub enum EvalError {
    Arithmetic(ArithmeticError),
    /// Resolving the named binding led back to itself.
    CircularReference(String),
}

/// The model of an evaluation failure.
pub enum Fault {
    DivisionByZero,
    CircularReference(Seq<char>),
}

impl EvalError {
    pub open spec fn fault(self) -> Fault {
        match self {
            EvalError::Arithmetic(_) => Fault::DivisionByZero,
            EvalError::CircularReference(n) => Fault::CircularReference(n@),
        }
    }
}

/// The built-in unary functions.
#[derive(Debug, Clone, Copy, PartialEq, Eq, Structural)]
pub enum Builtin {
    Floor,
    Ceil,
    Round,
    Trunc,
    Fract,
    Abs,
}

pub open spec fn builtin_named(n: Seq<char>) -> Option<Builtin> {
    if n == "floor"@ {
        Some(Builtin::Floor)
    } else if n == "ceil"@ {
        Some(Builtin::Ceil)
    } else if n == "round"@ {
        Some(Builtin::Round)
    } else if n == "trunc"@ {
        Some(Builtin::Trunc)
    } else if n == "fract"@ {
        Some(Builtin::Fract)
    } else if n == "abs"@ {
        Some(Builtin::Abs)
    } else {
        None
    }
}

pub open spec fn builtin_value(f: Builtin, x: (int, int)) -> (int, int) {
    match f {
        Builtin::Floor => rat_floor(x),
        Builtin::Ceil => rat_ceil(x),
        Builtin::Round => rat_round(x),
        Builtin::Trunc => rat_trunc(x),
        Builtin::Fract => rat_fract(x),
        Builtin::Abs => rat_abs(x),
    }
}

pub open spec fn fits_i32(v: int) -> bool {
    i32::MIN <= v <= i32::MAX
}

/// `x ^ y` for an integer `y` that fits in an `i32`, with `x`'s parts and the
/// result's parts within `i64`; `Ok(None)` where it does not reduce.
pub open spec fn rat_power(x: (int, int), y: (int, int)) -> Result<Option<(int, int)>, Fault> {
    if y.1 != 1 || !fits_i32(y.0) || !fits_i64(x.0) || !fits_i64(x.1) {
        Ok(None)
    } else if x.0 == 0 && y.0 < 0 {
        Err(Fault::DivisionByZero)
    } else {
        let k = abs(y.0) as nat;
        let a = pow(x.0, k);
        let b = pow(x.1, k);
        let p = if y.0 >= 0 { normalize(a, b) } else { normalize(b, a) };
        if fits_i64(a) && fits_i64(b) && fits_i64(p.0) && fits_i64(p.1) {
            Ok(Some(p))
        } else {
            Ok(None)
        }
    }
}

/// Arithmetic on two numbers; `Ok(None)` where it does not reduce.
pub open spec fn arith(op: Op, x: (int, int), y: (int, int)) -> Result<Option<Term>, Fault> {
    match op {
        Op::Add => Ok(Some(Term::Num(rat_add(x, y).0, rat_add(x, y).1))),
        Op::Subtract => Ok(Some(Term::Num(rat_sub(x, y).0, rat_sub(x, y).1))),
        Op::Multiply | Op::Adjacent => Ok(Some(Term::Num(rat_mul(x, y).0, rat_mul(x, y).1))),
        Op::Divide => if y.0 == 0 {
            Err(Fault::DivisionByZero)
        } else {
            Ok(Some(Term::Num(rat_div(x, y).0, rat_div(x, y).1)))
        },
        Op::Modulus => if y.0 == 0 {
            Err(Fault::DivisionByZero)
        } else {
            Ok(Some(Term::Num(rat_rem(x, y).0, rat_rem(x, y).1)))
        },
        Op::Exponent => match rat_power(x, y) {
            Err(f) => Err(f),
            Ok(Some(p)) => Ok(Some(Term::Num(p.0, p.1))),
            Ok(None) => Ok(None),
        },
        Op::Equals => Ok(Some(Term::Bool(same_value(x, y)))),
    }
}

/// Applies `op` to two reduced operands.
pub open spec fn combine(a: Term, op: Op, b: Term) -> Result<Term, Fault> {
    let unreduced = Term::Bin(Box::new(a), op, Box::new(b));
    if let (Term::Num(p, q), Term::Num(r, s)) = (a, b) {
        match arith(op, (p, q), (r, s)) {
            Err(f) => Err(f),
            Ok(Some(v)) => Ok(v),
            Ok(None) => Ok(unreduced),
        }
    } else if let (Term::Name(n), Term::Num(r, s)) = (a, b) {
        if op == Op::Adjacent && builtin_named(n) is Some {
            let v = builtin_value(builtin_named(n)->Some_0, (r, s));
            Ok(Term::Num(v.0, v.1))
        } else {
            Ok(unreduced)
        }
    } else {
        Ok(unreduced)
    }
}

/// The meaning of evaluating `t` under the bindings `env`.
pub open spec fn eval(t: Term, env: Seq<Entry>) -> Result<Term, Fault>
    decreases idle(env), t,
    via eval_decreases
{
    match t {
        Term::Name(n) => {
            let i = lookup(env, n);
            if i < 0 {
                Ok(t)
            } else if env[i].busy {
                Err(Fault::CircularReference(n))
            } else {
                eval(env[i].value, mark(env, i))
            }
        },
        Term::Bin(l, op, r) => match eval(*l, env) {
            Err(f) => Err(f),
            Ok(a) => match eval(*r, env) {
                Err(f) => Err(f),
                Ok(b) => combine(a, op, b),
            },
        },
        Term::Tup(items) => match eval_all(items, env) {
            Err(f) => Err(f),
            Ok(s) => Ok(Term::Tup(s)),
        },
        _ => Ok(t),
    }
}

/// Evaluates `items` left to right; the first failure wins.
pub open spec fn eval_all(items: Seq<Term>, env: Seq<Entry>) -> Result<Seq<Term>, Fault>
    decreases idle(env), items,
{
    if items.len() == 0 {
        Ok(Seq::empty())
    } else {
        match eval_all(items.subrange(0, items.len() - 1), env) {
            Err(f) => Err(f),
            Ok(front) => match eval(items[items.len() - 1], env) {
                Err(f) => Err(f),
                Ok(a) => Ok(front.push(a)),
            },
        }
    }
}

/// A failure in a prefix of the items is the failure of the whole.
proof fn lemma_eval_all_prefix_err(s: Seq<Term>, j: int, env: Seq<Entry>)
    requires
        0 <= j <= s.len(),
        eval_all(s.subrange(0, j), env) is Err,
    ensures
        eval_all(s, env) == eval_all(s.subrange(0, j), env),
    decreases s.len(),
{
    if j < s.len() {
        let front = s.subrange(0, s.len() - 1);
        assert(front.subrange(0, j) =~= s.subrange(0, j));
        lemma_eval_all_prefix_err(front, j, env);
    } else {
        assert(s.subrange(0, j) =~= s);
    }
}

#[via_fn]
proof fn eval_decreases(t: Term, env: Seq<Entry>) {
    if let Term::Name(n) = t {
        lemma_find_range(env, n, 0);
        let i = lookup(env, n);
        if i >= 0 && !env[i].busy {
            lemma_idle_mark(env, i);
        }
    }
}

proof fn lemma_pow_grows(b: int, j: nat, k: nat)
    requires
        abs(b) >= 2,
        j < k,
    ensures
        abs(pow(b, k)) >= 2 * abs(pow(b, j)),
    decreases k,
{
    let pk1 = pow(b, (k - 1) as nat);
    reveal(pow);
    assert(pow(b, k) == b * pk1);
    assert(abs(b * pk1) == abs(b) * abs(pk1)) by (nonlinear_arith);
    assert(abs(b) * abs(pk1) >= 2 * abs(pk1)) by (nonlinear_arith)
        requires abs(b) >= 2, abs(pk1) >= 0;
    if j < k - 1 {
        lemma_pow_grows(b, j, (k - 1) as nat);
    }
}

proof fn lemma_pow_nonzero(b: int, k: nat)
    requires
        b != 0,
    ensures
        pow(b, k) != 0,
    decreases k,
{
    reveal(pow);
    if k > 0 {
        lemma_pow_nonzero(b, (k - 1) as nat);
        let p = pow(b, (k - 1) as nat);
        assert(b * p != 0) by (nonlinear_arith)
            requires b != 0, p != 0;
    }
}

/// `b ^ k`, where it fits in an `i64`.
pub fn checked_power(b: i64, k: u32) -> (r: Option<i64>)
    ensures
        r == (if fits_i64(pow(b as int, k as nat)) {
            Some(pow(b as int, k as nat) as i64)
        } else {
            None::<i64>
        }),
{
    let mut acc: i64 = 1;
    let mut j: u32 = 0;
    proof {
        reveal(pow);
    }
    while j < k
        invariant
            j <= k,
            acc as int == pow(b as int, j as nat),
            abs(b as int) < 2 ==> abs(acc as int) <= 1,
        decreases k - j,
    {
        proof {
            let (a, c) = (acc as int, b as int);
            assert(-0x8000_0000_0000_0000_0000_0000_0000_0000 <= a * c
                <= 0x7fff_ffff_ffff_ffff_ffff_ffff_ffff_ffff) by (nonlinear_arith)
                requires
                    -0x8000_0000_0000_0000 <= a <= 0x7fff_ffff_ffff_ffff,
                    -0x8000_0000_0000_0000 <= c <= 0x7fff_ffff_ffff_ffff;
            if abs(c) < 2 {
                assert(abs(a * c) <= 1) by (nonlinear_arith)
                    requires abs(c) < 2, abs(a) <= 1;
            }
        }
        let prod: i128 = (acc as i128) * (b as i128);
        proof {
            reveal(pow);
            assert(pow(b as int, (j + 1) as nat) == b * pow(b as int, j as nat));
        }
        if prod < i64::MIN as i128 || prod > i64::MAX as i128 {
            proof {
                if j + 1 < k {
                    lemma_pow_grows(b as int, (j + 1) as nat, k as nat);
                }
            }
            return None;
        }
        acc = prod as i64;
        j = j + 1;
    }
    Some(acc)
}

/// Integer power of a rational; `Ok(None)` where it does not reduce.
pub fn ratio_power(x: &Rational, y: &Rational) -> (r: Result<Option<Rational>, EvalError>)
    requires
        x.wf(),
        y.wf(),
    ensures
        match r {
            Ok(Some(v)) => v.wf() && rat_power(x@, y@) == Ok::<_, Fault>(Some(v@)),
            Ok(None) => rat_power(x@, y@) == Ok::<Option<(int, int)>, Fault>(None),
            Err(e) => rat_power(x@, y@) == Err::<Option<(int, int)>, _>(e.fault()),
        },
{
    if !is_integer(y) {
        return Ok(None);
    }
    let k = match y.numer_i64() {
        Some(k) => k,
        None => return Ok(None),
    };
    if k < i32::MIN as i64 || k > i32::MAX as i64 {
        return Ok(None);
    }
    let (n, d) = match (x.numer_i64(), x.denom_i64()) {
        (Some(n), Some(d)) => (n, d),
        _ => return Ok(None),
    };
    if n == 0 && k < 0 {
        return Err(EvalError::Arithmetic(ArithmeticError::DivisionByZero));
    }
    let m: u32 = if k < 0 { (-k) as u32 } else { k as u32 };
    proof {
        assert(m as int == abs(y@.0));
    }
    let (a, b) = match (checked_power(n, m), checked_power(d, m)) {
        (Some(a), Some(b)) => (a, b),
        _ => return Ok(None),
    };
    proof {
        x.lemma_wf();
        assert(pow(x@.1, m as nat) > 0) by {
            vstd::arithmetic::power::lemma_pow_positive(x@.1, m as nat);
        }
        if k < 0 {
            lemma_pow_nonzero(x@.0, m as nat);
        }
    }
    let p = if k >= 0 { Rational::from_ratio(a, b) } else { Rational::from_ratio(b, a) };
    // the lowest-terms result must fit too: a swapped `i64::MIN` does not
    match (p.numer_i64(), p.denom_i64()) {
        (Some(_), Some(_)) => Ok(Some(p)),
        _ => Ok(None),
    }
}

/// Looks up a built-in function by name.
pub fn builtin_of(name: &String) -> (r: Option<Builtin>)
    ensures
        r == builtin_named(name@),
{
    if *name == String::from_str("floor") {
        Some(Builtin::Floor)
    } else if *name == String::from_str("ceil") {
        Some(Builtin::Ceil)
    } else if *name == String::from_str("round") {
        Some(Builtin::Round)
    } else if *name == String::from_str("trunc") {
        Some(Builtin::Trunc)
    } else if *name == String::from_str("fract") {
        Some(Builtin::Fract)
    } else if *name == String::from_str("abs") {
        Some(Builtin::Abs)
    } else {
        None
    }
}

/// Applies the built-in function `name` to a number.
pub fn apply_fn(name: &String, operand: &Expr) -> (r: Option<Expr>)
    requires
        operand.wf(),
    ensures
        match (builtin_named(name@), operand.term()) {
            (Some(f), Term::Num(p, q)) => r is Some && r->Some_0.wf() && r->Some_0.term() == Term::Num(
                builtin_value(f, (p, q)).0,
                builtin_value(f, (p, q)).1,
            ),
            _ => r is None,
        },
{
    let n = match operand {
        Expr::Number(n) => n,
        _ => return None,
    };
    let v = match builtin_of(name) {
        Some(Builtin::Floor) => floor_exact(n),
        Some(Builtin::Ceil) => ceil_exact(n),
        Some(Builtin::Round) => round_exact(n),
        Some(Builtin::Trunc) => trunc_exact(n),
        Some(Builtin::Fract) => fract_exact(n),
        Some(Builtin::Abs) => abs_exact(n),
        None => return None,
    };
    Some(Expr::Number(v))
}

/// Arithmetic on two numbers; `Ok(None)` where it does not reduce.
fn apply_numbers(op: Op, x: &Rational, y: &Rational) -> (r: Result<Option<Expr>, EvalError>)
    requires
        x.wf(),
        y.wf(),
    ensures
        match r {
            Ok(Some(v)) => v.wf() && arith(op, x@, y@) == Ok::<_, Fault>(Some(v.term())),
            Ok(None) => arith(op, x@, y@) == Ok::<Option<Term>, Fault>(None),
            Err(e) => arith(op, x@, y@) == Err::<Option<Term>, _>(e.fault()),
        },
{
    let v = match op {
        Op::Add => add_exact(x, y),
        Op::Subtract => sub_exact(x, y),
        Op::Multiply | Op::Adjacent => mul_exact(x, y),
        Op::Divide => {
            if y.is_zero() {
                return Err(EvalError::Arithmetic(ArithmeticError::DivisionByZero));
            }
            div_exact(x, y)
        },
        Op::Modulus => {
            if y.is_zero() {
                return Err(EvalError::Arithmetic(ArithmeticError::DivisionByZero));
            }
            rem_exact(x, y)
        },
        Op::Exponent => match ratio_power(x, y) {
            Ok(Some(p)) => p,
            Ok(None) => return Ok(None),
            Err(e) => return Err(e),
        },
        Op::Equals => return Ok(Some(Expr::Boolean(eq_exact(x, y)))),
    };
    Ok(Some(Expr::Number(v)))
}

/// Reduces `expression` bottom-up under the bindings of `context`.
///
/// Numbers and booleans stay as they are; an unbound name stays as it is; a bound
/// name is replaced by its reduced binding, and a binding met again while it is
/// being resolved is a `CircularReference`. A binary expression reduces both sides
/// and then applies exact arithmetic, or a built-in function to a number under
/// `Adjacent`; where no rule applies it keeps the reduced sides. The context's
/// bindings are the same afterwards.
pub fn evaluate(expression: Expr, context: &mut Context) -> (r: Result<Expr, EvalError>)
    requires
        expression.wf(),
        old(context).wf(),
    ensures
        final(context).wf(),
        final(context)@ == old(context)@,
        match r {
            Ok(v) => v.wf() && eval(expression.term(), old(context)@) == Ok::<_, Fault>(v.term()),
            Err(e) => eval(expression.term(), old(context)@) == Err::<Term, _>(e.fault()),
        },
    decreases idle(old(context)@), expression.term(),
{
    let ghost env = context@;
    match expression {
        Expr::BinaryExpr(lhs, op, rhs) => {
            let l = match evaluate(*lhs, context) {
                Ok(l) => l,
                Err(e) => return Err(e),
            };
            let r = match evaluate(*rhs, context) {
                Ok(r) => r,
                Err(e) => return Err(e),
            };
            if let (Expr::Number(x), Expr::Number(y)) = (&l, &r) {
                match apply_numbers(op, x, y) {
                    Ok(Some(v)) => return Ok(v),
                    Ok(None) => {},
                    Err(e) => return Err(e),
                }
            }
            if let Expr::Name(name) = &l {
                if op == Op::Adjacent {
                    if let Some(v) = apply_fn(name, &r) {
                        return Ok(v);
                    }
                }
            }
            Ok(Expr::BinaryExpr(Box::new(l), op, Box::new(r)))
        },
        Expr::Name(name) => {
            proof {
                lemma_find_range(env, name@, 0);
            }
            match context.find(&name) {
                None => Ok(Expr::Name(name)),
                Some(i) => {
                    if context.is_busy(i) {
                        return Err(EvalError::CircularReference(name));
                    }
                    let bound = context.value_of(i);
                    context.set_busy(i, true);
                    proof {
                        lemma_idle_mark(env, i as int);
                    }
                    let r = evaluate(bound, context);
                    context.set_busy(i, false);
                    proof {
                        assert(context@ =~= env);
                    }
                    r
                },
            }
        },
        Expr::Tuple(items) => {
            let ghost ts = crate::expr::terms_of(items@);
            let mut out: Vec<Expr> = Vec::new();
            let mut i: usize = 0;
            while i < items.len()
                invariant
                    context.wf(),
                    context@ == env,
                    env == old(context)@,
                    expression == Expr::Tuple(items),
                    ts == crate::expr::terms_of(items@),
                    i <= items@.len(),
                    crate::expr::all_wf(items@),
                    crate::expr::all_wf(out@),
                    eval_all(ts.subrange(0, i as int), env) == Ok::<_, Fault>(crate::expr::terms_of(out@)),
                decreases items@.len() - i,
            {
                let e = items[i].duplicate();
                proof {
                    crate::expr::lemma_terms_index(items@, i as int);
                    assert(decreases_to!(expression.term() => ts));
                    assert(decreases_to!(ts => ts[i as int]));
                    let pre = ts.subrange(0, i + 1);
                    assert(pre.subrange(0, pre.len() - 1) =~= ts.subrange(0, i as int));
                    assert(pre[pre.len() - 1] == ts[i as int]);
                }
                match evaluate(e, context) {
                    Ok(v) => {
                        proof {
                            crate::expr::lemma_terms_push(out@, v);
                        }
                        out.push(v);
                    },
                    Err(err) => {
                        proof {
                            lemma_eval_all_prefix_err(ts, i + 1, env);
                        }
                        return Err(err);
                    },
                }
                i = i + 1;
            }
            proof {
                crate::expr::lemma_terms_len(items@);
                assert(ts.subrange(0, ts.len() as int) =~= ts);
            }
            Ok(Expr::Tuple(out))
        },
        Expr::Number(n) => Ok(Expr::Number(n)),
        Expr::Boolean(b) => Ok(Expr::Boolean(b)),
    }
}

} // verus!
