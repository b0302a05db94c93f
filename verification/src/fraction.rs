//! Facts about fractions in lowest terms: Bézout's identity for the gcd,
//! Euclid's lemma, and the uniqueness of the lowest-terms form, from which
//! equal values are equal fractions.
use vstd::prelude::*;
use vstd::arithmetic::div_mod::{lemma_fundamental_div_mod, lemma_mod_multiples_basic};
use crate::rational::{abs, gcd, canon};

verus! {

/// A fraction in lowest terms with a positive denominator.
pub open spec fn canonical(r: (int, int)) -> bool {
    r.1 > 0 && gcd(abs(r.0), r.1 as nat) == 1
}

/// `a/b` and `c/d` have the same value.
pub open spec fn same_value(x: (int, int), y: (int, int)) -> bool {
    x.0 * y.1 == y.0 * x.1
}

/// Bézout's identity: `a·x + b·y = gcd(a, b)` for some integers `x`, `y`.
#[verifier::spinoff_prover]
pub proof fn lemma_bezout(a: nat, b: nat) -> (xy: (int, int))
    ensures
        a * xy.0 + b * xy.1 == gcd(a, b),
    decreases b,
{
    if b == 0 {
        (1, 0)
    } else {
        let (x, y) = lemma_bezout(b, a % b);
        lemma_fundamental_div_mod(a as int, b as int);
        let q = a / b;
        let r = a % b;
        assert(a * y + b * (x - q * y) == b * x + r * y) by (nonlinear_arith)
            requires
                a == b * q + r,
        ;
        (y, x - q * y)
    }
}

/// The gcd is positive and divides both arguments (unless both are zero).
#[verifier::spinoff_prover]
pub proof fn lemma_gcd_divides(a: nat, b: nat)
    ensures
        (a > 0 || b > 0) ==> gcd(a, b) > 0 && a % gcd(a, b) == 0 && b % gcd(a, b) == 0,
    decreases b,
{
    if b == 0 {
        if a > 0 {
            vstd::arithmetic::div_mod::lemma_mod_self_0(a as int);
            vstd::arithmetic::div_mod::lemma_small_mod(0, a);
        }
    } else {
        let r = a % b;
        lemma_gcd_divides(b, r);
        let g = gcd(b, r);
        assert(gcd(a, b) == g);
        lemma_fundamental_div_mod(a as int, b as int);
        lemma_fundamental_div_mod(b as int, g as int);
        lemma_fundamental_div_mod(r as int, g as int);
        let q = a / b;
        let x = b / g;
        let y = r / g;
        assert(a == g * (q * x + y)) by (nonlinear_arith)
            requires
                a == b * q + r,
                b == g * x,
                r == g * y,
        ;
        lemma_mod_multiples_basic((q * x + y) as int, g as int);
        assert((q * x + y) * g == g * (q * x + y)) by (nonlinear_arith);
        assert(a % g == 0);
        assert(b % g == 0);
    }
}

/// `m % k == 0` means `m` is `k` times an integer.
proof fn lemma_divides(m: int, k: int)
    requires
        k > 0,
        m % k == 0,
    ensures
        m == k * (m / k),
{
    lemma_fundamental_div_mod(m, k);
}

/// `k · j` is a multiple of `k`.
proof fn lemma_multiple(k: int, j: int)
    requires
        k > 0,
    ensures
        (k * j) % k == 0,
{
    lemma_mod_multiples_basic(j, k);
    assert(j * k == k * j) by (nonlinear_arith);
}

/// Euclid's lemma: when `b` and `a` share no factor and `a` divides `b·c`,
/// `a` divides `c`.
#[verifier::spinoff_prover]
pub proof fn lemma_euclid(a: nat, b: nat, c: int)
    requires
        a > 0,
        gcd(b, a) == 1,
        (b * c) % (a as int) == 0,
    ensures
        c % (a as int) == 0,
{
    let (x, y) = lemma_bezout(b, a);
    lemma_divides(b * c, a as int);
    let k = (b * c) / (a as int);
    assert(c == (a as int) * (k * x + c * y)) by (nonlinear_arith)
        requires
            b * x + a * y == 1,
            b * c == a * k,
    ;
    lemma_multiple(a as int, k * x + c * y);
}

/// Two fractions in lowest terms with the same value are the same fraction.
#[verifier::spinoff_prover]
pub proof fn lemma_canonical_unique(x: (int, int), y: (int, int))
    requires
        canonical(x),
        canonical(y),
        same_value(x, y),
    ensures
        x == y,
{
    let (n1, d1) = x;
    let (n2, d2) = y;
    // d1 divides |n1|·d2 (which is ±n2·d1), and shares no factor with |n1|.
    assert((abs(n1) * d2) == (if n1 < 0 { -n2 } else { n2 }) * d1) by (nonlinear_arith)
        requires
            n1 * d2 == n2 * d1,
            abs(n1) == (if n1 < 0 { -n1 } else { n1 }),
    ;
    assert((abs(n2) * d1) == (if n2 < 0 { -n1 } else { n1 }) * d2) by (nonlinear_arith)
        requires
            n1 * d2 == n2 * d1,
            abs(n2) == (if n2 < 0 { -n2 } else { n2 }),
    ;
    lemma_multiple(d1, if n1 < 0 { -n2 } else { n2 });
    lemma_multiple(d2, if n2 < 0 { -n1 } else { n1 });
    assert((if n1 < 0 { -n2 } else { n2 }) * d1 == d1 * (if n1 < 0 { -n2 } else { n2 })) by (nonlinear_arith);
    assert((if n2 < 0 { -n1 } else { n1 }) * d2 == d2 * (if n2 < 0 { -n1 } else { n1 })) by (nonlinear_arith);
    lemma_euclid(d1 as nat, abs(n1), d2);
    lemma_euclid(d2 as nat, abs(n2), d1);
    lemma_divides(d2, d1);
    lemma_divides(d1, d2);
    let k = d2 / d1;
    let m = d1 / d2;
    assert(d1 == d2) by (nonlinear_arith)
        requires
            d2 == d1 * k,
            d1 == d2 * m,
            d1 > 0,
            d2 > 0,
    ;
    assert(n1 == n2) by (nonlinear_arith)
        requires
            n1 * d2 == n2 * d1,
            d1 == d2,
            d1 > 0,
    ;
}

/// `n/d` in lowest terms is canonical and has the value of `n/d`.
#[verifier::spinoff_prover]
pub proof fn lemma_canon(n: int, d: int)
    requires
        d != 0,
    ensures
        canonical(canon(n, d)),
        same_value(canon(n, d), (n, d)),
{
    let an = abs(n);
    let ad = abs(d);
    lemma_gcd_divides(an, ad);
    let g = gcd(an, ad) as int;
    lemma_divides(an as int, g);
    lemma_divides(ad as int, g);
    let n1 = (an as int) / g;
    let d1 = (ad as int) / g;
    // The signed parts: n = s·g·n1 for the sign s of n, likewise d.
    let sn: int = if n < 0 { -1 } else { 1 };
    let sd: int = if d < 0 { -1 } else { 1 };
    assert(n == sn * an) by (nonlinear_arith)
        requires
            sn == (if n < 0 { -1int } else { 1 }),
            an == (if n < 0 { -n } else { n }),
    ;
    assert(d == sd * ad) by (nonlinear_arith)
        requires
            sd == (if d < 0 { -1int } else { 1 }),
            ad == (if d < 0 { -d } else { d }),
    ;
    assert(n == g * (sn * n1)) by (nonlinear_arith)
        requires
            n == sn * an,
            an == g * n1,
    ;
    assert(d == g * (sd * d1)) by (nonlinear_arith)
        requires
            d == sd * ad,
            ad == g * d1,
    ;
    // Exact division by g.
    assert(n / g == sn * n1) by {
        vstd::arithmetic::div_mod::lemma_div_multiples_vanish(sn * n1, g);
    }
    assert(d / g == sd * d1) by {
        vstd::arithmetic::div_mod::lemma_div_multiples_vanish(sd * d1, g);
    }
    assert(-n == g * (-(sn * n1))) by (nonlinear_arith)
        requires
            n == g * (sn * n1),
    ;
    assert(-d == g * (-(sd * d1))) by (nonlinear_arith)
        requires
            d == g * (sd * d1),
    ;
    assert((-n) / g == -(sn * n1)) by {
        vstd::arithmetic::div_mod::lemma_div_multiples_vanish(-(sn * n1), g);
    }
    assert((-d) / g == -(sd * d1)) by {
        vstd::arithmetic::div_mod::lemma_div_multiples_vanish(-(sd * d1), g);
    }
    let c = canon(n, d);
    // c = (sd·sn·n1, d1) and d1 > 0.
    assert(ad > 0);
    assert(d1 > 0) by (nonlinear_arith)
        requires
            ad == g * d1,
            ad > 0,
            g > 0,
    ;
    assert(c.1 == d1);
    assert(c.0 == sd * sn * n1) by (nonlinear_arith)
        requires
            c.0 == (if d < 0 { -(sn * n1) } else { sn * n1 }),
            sd == (if d < 0 { -1int } else { 1 }),
    ;
    assert(abs(c.0) == n1) by (nonlinear_arith)
        requires
            c.0 == sd * sn * n1,
            sd == 1 || sd == -1,
            sn == 1 || sn == -1,
            n1 >= 0,
            abs(c.0) == (if c.0 < 0 { -c.0 } else { c.0 }),
    ;
    // Lowest terms: n1·x + d1·y = 1, so any common divisor of n1, d1 is 1.
    let (x, y) = lemma_bezout(an, ad);
    assert(g * (n1 * x + d1 * y) == g) by (nonlinear_arith)
        requires
            an * x + ad * y == g,
            an == g * n1,
            ad == g * d1,
    ;
    assert(n1 * x + d1 * y == 1) by (nonlinear_arith)
        requires
            g * (n1 * x + d1 * y) == g,
            g > 0,
    ;
    lemma_gcd_divides(n1 as nat, d1 as nat);
    let h = gcd(n1 as nat, d1 as nat) as int;
    lemma_divides(n1, h);
    lemma_divides(d1, h);
    assert(h * ((n1 / h) * x + (d1 / h) * y) == 1) by (nonlinear_arith)
        requires
            n1 == h * (n1 / h),
            d1 == h * (d1 / h),
            n1 * x + d1 * y == 1,
    ;
    assert(h == 1) by (nonlinear_arith)
        requires
            h * ((n1 / h) * x + (d1 / h) * y) == 1,
            h > 0,
    ;
    // Same value: c.0·d == n·c.1.
    assert(c.0 * d == n * c.1) by (nonlinear_arith)
        requires
            c.0 == sd * sn * n1,
            c.1 == d1,
            n == g * (sn * n1),
            d == g * (sd * d1),
            sd * sd == 1,
    ;
}

} // verus!
