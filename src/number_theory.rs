//! Facts about `gcd` and lowest terms that the laws of exact arithmetic rest on.

use vstd::prelude::*;
use vstd::arithmetic::div_mod::{lemma_fundamental_div_mod, lemma_mod_pos_bound};
use crate::rational::{abs, gcd, is_reduced, normalize, same_value};

verus! {

/// `d` divides `a`.
pub open spec fn divides(d: int, a: int) -> bool {
    exists|k: int| #[trigger] (d * k) == a
}

/// Coefficients `(x, y)` with `a * x + b * y == gcd(a, b)`.
pub open spec fn bezout(a: nat, b: nat) -> (int, int)
    decreases b,
{
    if b == 0 {
        (1, 0)
    } else {
        let (x, y) = bezout(b, a % b);
        (y, x - (a / b) as int * y)
    }
}

pub proof fn lemma_bezout(a: nat, b: nat)
    ensures
        a * bezout(a, b).0 + b * bezout(a, b).1 == gcd(a, b),
    decreases b,
{
    if b > 0 {
        lemma_bezout(b, a % b);
        lemma_fundamental_div_mod(a as int, b as int);
        let (x, y) = bezout(b, a % b);
        let q = (a / b) as int;
        let r = (a % b) as int;
        assert(a as int == b * q + r);
        assert(a * y + b * (x - q * y) == b * x + r * y) by (nonlinear_arith)
            requires a as int == b * q + r;
    }
}

/// `gcd(a, b)` divides both, and is positive unless both are zero.
pub proof fn lemma_gcd_divides(a: nat, b: nat)
    ensures
        a > 0 || b > 0 ==> gcd(a, b) > 0,
        divides(gcd(a, b) as int, a as int),
        divides(gcd(a, b) as int, b as int),
    decreases b,
{
    if b == 0 {
        assert(a == gcd(a, b) * 1);
        assert(b == gcd(a, b) * 0);
    } else {
        lemma_gcd_divides(b, a % b);
        lemma_fundamental_div_mod(a as int, b as int);
        lemma_mod_pos_bound(a as int, b as int);
        let g = gcd(a, b) as int;
        let kb = choose|k: int| #[trigger] (g * k) == b;
        let kr = choose|k: int| #[trigger] (g * k) == (a % b) as int;
        let q = (a / b) as int;
        assert(a == g * (kb * q + kr)) by (nonlinear_arith)
            requires b == g * kb, (a % b) as int == g * kr, a as int == b * q + (a % b) as int;
    }
}

/// A positive `d` that divides `a` and `b` divides any combination of them.
proof fn lemma_divides_combination(d: int, a: int, b: int, x: int, y: int, ka: int, kb: int)
    requires
        a == d * ka,
        b == d * kb,
    ensures
        a * x + b * y == d * (ka * x + kb * y),
{
    assert(a * x + b * y == d * (ka * x + kb * y)) by (nonlinear_arith)
        requires a == d * ka, b == d * kb;
}

/// The lowest-terms form has the same value and is reduced.
pub proof fn lemma_normalize(n: int, d: int)
    requires
        d != 0,
    ensures
        same_value(normalize(n, d), (n, d)),
        is_reduced(normalize(n, d)),
{
    let a = abs(n) as nat;
    let b = abs(d) as nat;
    lemma_gcd_divides(a, b);
    let g = gcd(a, b) as int;
    let ka = choose|k: int| #[trigger] (g * k) == a;
    let kb = choose|k: int| #[trigger] (g * k) == b;
    // n == g * sn, d == g * sd
    let sn = if n < 0 { -ka } else { ka };
    let sd = if d < 0 { -kb } else { kb };
    assert(n == g * sn) by (nonlinear_arith)
        requires a == g * ka, a == abs(n), sn == (if n < 0 { -ka } else { ka });
    assert(d == g * sd) by (nonlinear_arith)
        requires b == g * kb, b == abs(d), sd == (if d < 0 { -kb } else { kb });
    vstd::arithmetic::div_mod::lemma_div_multiples_vanish(sn, g);
    vstd::arithmetic::div_mod::lemma_div_multiples_vanish(sd, g);
    vstd::arithmetic::div_mod::lemma_div_multiples_vanish(-sn, g);
    vstd::arithmetic::div_mod::lemma_div_multiples_vanish(-sd, g);
    assert(g * (-sn) == -n) by (nonlinear_arith)
        requires n == g * sn;
    assert(g * (-sd) == -d) by (nonlinear_arith)
        requires d == g * sd;
    assert(g * kb > 0) by {
        assert(b > 0);
    }
    assert(kb > 0) by (nonlinear_arith)
        requires g > 0, g * kb > 0;
    let r = normalize(n, d);
    assert(r == (if d < 0 { (-sn, -sd) } else { (sn, sd) }));
    assert(r.1 == kb);
    assert(r.0 * d == n * r.1) by (nonlinear_arith)
        requires n == g * sn, d == g * sd, r == (if d < 0 { (-sn, -sd) } else { (sn, sd) });
    // reduced: a common positive divisor of ka and kb divides 1
    lemma_bezout(a, b);
    let (x, y) = bezout(a, b);
    assert(ka * x + kb * y == 1) by (nonlinear_arith)
        requires a * x + b * y == g, a == g * ka, b == g * kb, g > 0;
    assert(abs(r.0) == ka);
    let h = gcd(ka as nat, kb as nat);
    lemma_gcd_divides(ka as nat, kb as nat);
    let ha = choose|k: int| #[trigger] (h * k) == ka;
    let hb = choose|k: int| #[trigger] (h * k) == kb;
    lemma_divides_combination(h as int, ka, kb, x, y, ha, hb);
    assert(h == 1) by (nonlinear_arith)
        requires h * (ha * x + hb * y) == 1, h > 0;
}

/// Two reduced fractions with the same value are equal.
pub proof fn lemma_reduced_unique(p: (int, int), q: (int, int))
    requires
        is_reduced(p),
        is_reduced(q),
        same_value(p, q),
    ensures
        p == q,
{
    lemma_divides_lowest(p, q);
    lemma_divides_lowest(q, p);
    let k1 = choose|k: int| #[trigger] (p.1 * k) == q.1;
    let k2 = choose|k: int| #[trigger] (q.1 * k) == p.1;
    assert(p.1 == q.1) by (nonlinear_arith)
        requires q.1 == p.1 * k1, p.1 == q.1 * k2, p.1 > 0, q.1 > 0;
    assert(p.0 == q.0) by (nonlinear_arith)
        requires p.0 * q.1 == q.0 * p.1, p.1 == q.1, p.1 > 0;
}

/// The denominator of a reduced fraction divides that of any fraction of the same value.
proof fn lemma_divides_lowest(p: (int, int), q: (int, int))
    requires
        is_reduced(p),
        q.1 > 0,
        same_value(p, q),
    ensures
        divides(p.1, q.1),
{
    let a = abs(p.0) as nat;
    let b = p.1 as nat;
    lemma_bezout(a, b);
    let (x, y) = bezout(a, b);
    // a * x + b * y == 1, so q.1 == a * q.1 * x + b * q.1 * y and p.1 divides a * q.1
    let sx = if p.0 < 0 { -x } else { x };
    assert(p.0 * sx + p.1 * y == 1) by (nonlinear_arith)
        requires a * x + b * y == 1, a == abs(p.0), b == p.1, sx == (if p.0 < 0 { -x } else { x });
    assert(q.1 == p.1 * (q.0 * sx + q.1 * y)) by (nonlinear_arith)
        requires p.0 * sx + p.1 * y == 1, p.0 * q.1 == q.0 * p.1;
}

} // verus!
