use vstd::arithmetic::div_mod::{
    lemma_fundamental_div_mod, lemma_mod_multiples_basic, lemma_mod_self_0,
};
use vstd::prelude::*;
use gcd::Gcd;

verus! {

/// Greatest common divisor by Euclid's recurrence, with `gcd(a, 0) == a`.
pub open spec fn gcd(a: nat, b: nat) -> nat
    decreases b,
{
    if b == 0 {
        a
    } else {
        gcd(b, a % b)
    }
}

/// Relies on `gcd::Gcd::gcd` for `u32`: the greatest common divisor of the two
/// values, where zero with `x` gives `x`.
#[verifier::external_body]
fn gcd_u32(a: u32, b: u32) -> (r: u32)
    ensures
        r as nat == gcd(a as nat, b as nat),
{
    a.gcd(b)
}

/// When one argument is non-zero the gcd is positive and divides both.
pub proof fn lemma_gcd_divides(a: nat, b: nat)
    requires
        a > 0 || b > 0,
    ensures
        gcd(a, b) > 0,
        a % gcd(a, b) == 0,
        b % gcd(a, b) == 0,
    decreases b,
{
    if b == 0 {
        lemma_mod_self_0(a as int);
    } else {
        let r = a % b;
        lemma_gcd_divides(b, r);
        let g = gcd(b, r) as int;
        lemma_fundamental_div_mod(a as int, b as int);
        lemma_fundamental_div_mod(b as int, g);
        lemma_fundamental_div_mod(r as int, g);
        let k = (b as int / g) * (a as int / b as int) + (r as int / g);
        assert(a as int == k * g) by (nonlinear_arith)
            requires
                a as int == b as int * (a as int / b as int) + r as int,
                b as int == g * (b as int / g),
                r as int == g * (r as int / g),
                k == (b as int / g) * (a as int / b as int) + (r as int / g),
        ;
        lemma_mod_multiples_basic(k, g);
    }
}

/// Every common divisor of `a` and `b` divides their gcd.
pub proof fn lemma_common_divisor_divides_gcd(a: nat, b: nat, d: nat)
    requires
        d > 0,
        a % d == 0,
        b % d == 0,
    ensures
        gcd(a, b) % d == 0,
    decreases b,
{
    if b > 0 {
        let r = a % b;
        lemma_fundamental_div_mod(a as int, b as int);
        lemma_fundamental_div_mod(a as int, d as int);
        lemma_fundamental_div_mod(b as int, d as int);
        let k = (a as int / d as int) - (b as int / d as int) * (a as int / b as int);
        assert(r as int == k * d) by (nonlinear_arith)
            requires
                a as int == b as int * (a as int / b as int) + r as int,
                a as int == d as int * (a as int / d as int),
                b as int == d as int * (b as int / d as int),
                k == (a as int / d as int) - (b as int / d as int) * (a as int / b as int),
        ;
        lemma_mod_multiples_basic(k, d as int);
        lemma_common_divisor_divides_gcd(b, r, d);
    }
}

/// A ratio of two unsigned integers, used as a track's timebase.
#[derive(Clone, Copy, Debug, PartialEq, Eq, Structural)]
pub struct Fraction {
    pub numerator: u32,
    pub denominator: u32,
}

impl Fraction {
    pub fn new(numerator: u32, denominator: u32) -> (r: Fraction)
        ensures
            r.numerator == numerator,
            r.denominator == denominator,
    {
        Fraction { numerator, denominator }
    }

    /// Divides numerator and denominator by their greatest common divisor.
    pub fn simplify(&self) -> (r: Fraction)
        requires
            self.numerator > 0 || self.denominator > 0,
        ensures
            r.numerator == self.numerator as nat / gcd(self.numerator as nat, self.denominator as nat),
            r.denominator == self.denominator as nat / gcd(self.numerator as nat, self.denominator as nat),
            gcd(r.numerator as nat, r.denominator as nat) == 1,
            r.numerator * self.denominator == self.numerator * r.denominator,
    {
        let divisor = gcd_u32(self.numerator, self.denominator);
        proof {
            lemma_gcd_divides(self.numerator as nat, self.denominator as nat);
        }
        let r = Fraction::new(self.numerator / divisor, self.denominator / divisor);
        proof {
            lemma_simplified_is_reduced(self.numerator as nat, self.denominator as nat);
        }
        r
    }
}

/// Dividing both parts by their gcd leaves parts whose gcd is 1, and the
/// ratio is unchanged: `(n / g) * d == n * (d / g)`.
pub proof fn lemma_simplified_is_reduced(n: nat, d: nat)
    requires
        n > 0 || d > 0,
    ensures
        gcd(n / gcd(n, d), d / gcd(n, d)) == 1,
        (n / gcd(n, d)) * d == n * (d / gcd(n, d)),
{
    lemma_gcd_divides(n, d);
    let g = gcd(n, d);
    lemma_fundamental_div_mod(n as int, g as int);
    lemma_fundamental_div_mod(d as int, g as int);
    let n1 = n / g;
    let d1 = d / g;
    assert(n == g * n1 && d == g * d1);
    assert(n1 > 0 || d1 > 0) by (nonlinear_arith)
        requires
            n == g * n1,
            d == g * d1,
            n > 0 || d > 0,
    ;
    lemma_gcd_divides(n1, d1);
    let h = gcd(n1, d1);
    lemma_fundamental_div_mod(n1 as int, h as int);
    lemma_fundamental_div_mod(d1 as int, h as int);
    let gh = g * h;
    assert(gh > 0) by (nonlinear_arith)
        requires
            g > 0,
            h > 0,
            gh == g * h,
    ;
    assert(n as int == (n1 as int / h as int) * gh && d as int == (d1 as int / h as int) * gh)
        by (nonlinear_arith)
        requires
            n == g * n1,
            d == g * d1,
            n1 as int == h * (n1 as int / h as int),
            d1 as int == h * (d1 as int / h as int),
            gh == g * h,
    ;
    lemma_mod_multiples_basic(n1 as int / h as int, gh as int);
    lemma_mod_multiples_basic(d1 as int / h as int, gh as int);
    lemma_common_divisor_divides_gcd(n, d, gh);
    lemma_fundamental_div_mod(g as int, gh as int);
    assert(h == 1) by (nonlinear_arith)
        requires
            g > 0,
            h > 0,
            gh == g * h,
            g as int == gh * (g as int / gh as int) + g as int % gh as int,
            g as int % gh as int == 0,
    ;
    assert(n1 * d == n * d1) by (nonlinear_arith)
        requires
            n == g * n1,
            d == g * d1,
    ;
}

} // verus!
