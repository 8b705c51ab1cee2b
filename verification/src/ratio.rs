//! Aspect ratios: reducing a width/height pair to lowest terms, and turning a
//! ratio plus a target size back into pixel dimensions.

use vstd::arithmetic::div_mod::{lemma_fundamental_div_mod, lemma_mod_multiples_basic};
use vstd::prelude::*;

verus! {

/// The largest `k` in `1..=d` that divides both `a` and `b`, or 0 if `d` is 0.
pub open spec fn common_divisor_upto(a: nat, b: nat, d: nat) -> nat
    decreases d,
{
    if d == 0 {
        0
    } else if a % d == 0 && b % d == 0 {
        d
    } else {
        common_divisor_upto(a, b, (d - 1) as nat)
    }
}

/// The greatest common divisor of `a` and `b`: the largest number that divides
/// both. `gcd(0, n)` is `n`, and `gcd(0, 0)` is 0.
pub open spec fn gcd(a: nat, b: nat) -> nat {
    common_divisor_upto(a, b, if a >= b { a } else { b })
}

/// A width/height pair divided through by its greatest common divisor. The
/// pair `(0, 0)` has no divisor to divide by and stays as it is.
pub open spec fn reduce(w: nat, h: nat) -> (nat, nat) {
    let g = gcd(w, h);
    if g == 0 {
        (0, 0)
    } else {
        (w / g, h / g)
    }
}

/// The pixel dimensions of a rectangle of the given ratio whose longer side is
/// `size`: the shorter side is scaled in proportion and rounded down.
pub open spec fn dimensions_for(ratio: (nat, nat), size: nat) -> (nat, nat) {
    if ratio.0 > ratio.1 {
        (size, size * ratio.1 / ratio.0)
    } else {
        (size * ratio.0 / ratio.1, size)
    }
}

proof fn lemma_common_divisor_upto(a: nat, b: nat, d: nat)
    requires
        d >= 1,
    ensures
        1 <= common_divisor_upto(a, b, d) <= d,
        a % common_divisor_upto(a, b, d) == 0,
        b % common_divisor_upto(a, b, d) == 0,
    decreases d,
{
    if d > 1 && !(a % d == 0 && b % d == 0) {
        lemma_common_divisor_upto(a, b, (d - 1) as nat);
    }
}

proof fn lemma_common_divisor_upto_greatest(a: nat, b: nat, d: nat, c: nat)
    requires
        1 <= c <= d,
        a % c == 0,
        b % c == 0,
    ensures
        c <= common_divisor_upto(a, b, d),
    decreases d,
{
    if !(a % d == 0 && b % d == 0) {
        lemma_common_divisor_upto_greatest(a, b, (d - 1) as nat, c);
    }
}

/// Unless both numbers are 0, their gcd is positive and divides each of them.
pub proof fn lemma_gcd_divides(a: nat, b: nat)
    requires
        a > 0 || b > 0,
    ensures
        gcd(a, b) >= 1,
        a % gcd(a, b) == 0,
        b % gcd(a, b) == 0,
{
    lemma_common_divisor_upto(a, b, if a >= b { a } else { b });
}

/// The gcd of 0 and a number is that number.
pub proof fn lemma_gcd_with_zero(n: nat)
    ensures
        gcd(0, n) == n,
        gcd(n, 0) == n,
{
    if n > 0 {
        assert(0nat % n == 0 && n % n == 0) by (nonlinear_arith)
            requires
                n > 0,
        ;
    }
}

/// A square reduces to the ratio 1:1.
pub proof fn lemma_reduce_square(n: nat)
    requires
        n > 0,
    ensures
        reduce(n, n) == (1nat, 1nat),
{
    assert(n % n == 0 && n / n == 1) by (nonlinear_arith)
        requires
            n > 0,
    ;
}

/// No common divisor of two numbers, not both 0, exceeds their gcd.
pub proof fn lemma_gcd_greatest(a: nat, b: nat, c: nat)
    requires
        a > 0 || b > 0,
        c >= 1,
        a % c == 0,
        b % c == 0,
    ensures
        c <= gcd(a, b),
{
    let m = if a >= b { a } else { b };
    assert(c <= m) by {
        if a > 0 {
            lemma_divisor_at_most(a, c);
        } else {
            lemma_divisor_at_most(b, c);
        }
    }
    lemma_common_divisor_upto_greatest(a, b, m, c);
}

proof fn lemma_divisor_at_most(n: nat, c: nat)
    requires
        n > 0,
        c >= 1,
        n % c == 0,
    ensures
        c <= n,
{
    lemma_fundamental_div_mod(n as int, c as int);
    assert(c <= n) by (nonlinear_arith)
        requires
            n == c * (n / c),
            n > 0,
            c >= 1,
            n / c >= 0,
    ;
}

/// If `e` divides `n / g` and `g` divides `n`, then `e * g` divides `n`.
proof fn lemma_divisor_of_quotient(n: nat, g: nat, e: nat)
    requires
        g >= 1,
        e >= 1,
        n % g == 0,
        (n / g) % e == 0,
    ensures
        n % (e * g) == 0,
{
    let q = n / g;
    lemma_fundamental_div_mod(n as int, g as int);
    lemma_fundamental_div_mod(q as int, e as int);
    let k = q / e;
    assert(n == k * (e * g)) by (nonlinear_arith)
        requires
            n == g * q,
            q == e * k,
    ;
    assert(e * g > 0) by (nonlinear_arith)
        requires
            e >= 1,
            g >= 1,
    ;
    lemma_mod_multiples_basic(k as int, (e * g) as int);
}

/// A reduced ratio is in lowest terms: its two sides have no common factor
/// above 1.
pub proof fn lemma_reduce_lowest_terms(w: nat, h: nat)
    requires
        w > 0 || h > 0,
    ensures
        gcd(reduce(w, h).0, reduce(w, h).1) == 1,
{
    let g = gcd(w, h);
    lemma_gcd_divides(w, h);
    let a = w / g;
    let b = h / g;
    lemma_fundamental_div_mod(w as int, g as int);
    lemma_fundamental_div_mod(h as int, g as int);
    assert(a > 0 || b > 0) by (nonlinear_arith)
        requires
            w == g * a,
            h == g * b,
            w > 0 || h > 0,
    ;
    let e = gcd(a, b);
    lemma_gcd_divides(a, b);
    lemma_divisor_of_quotient(w, g, e);
    lemma_divisor_of_quotient(h, g, e);
    assert(e * g >= 1) by (nonlinear_arith)
        requires
            e >= 1,
            g >= 1,
    ;
    lemma_gcd_greatest(w, h, e * g);
    assert(e == 1) by (nonlinear_arith)
        requires
            e * g <= g,
            e >= 1,
            g >= 1,
    ;
}

/// Reducing a ratio that is already reduced changes nothing.
pub proof fn lemma_reduce_idempotent(w: nat, h: nat)
    ensures
        reduce(reduce(w, h).0, reduce(w, h).1) == reduce(w, h),
{
    if w > 0 || h > 0 {
        lemma_gcd_divides(w, h);
        lemma_reduce_lowest_terms(w, h);
    } else {
        assert(gcd(0, 0) == 0);
    }
}

/// Whatever the ratio, the longer side of `dimensions_for` is exactly `size`
/// and the shorter side does not exceed it.
pub proof fn lemma_dimensions_for_bounds(ratio: (nat, nat), size: nat)
    requires
        ratio.0 > 0 || ratio.1 > 0,
    ensures
        dimensions_for(ratio, size).0 <= size,
        dimensions_for(ratio, size).1 <= size,
        dimensions_for(ratio, size).0 == size || dimensions_for(ratio, size).1 == size,
        ratio.0 > ratio.1 ==> dimensions_for(ratio, size).0 == size,
        ratio.0 <= ratio.1 ==> dimensions_for(ratio, size).1 == size,
{
    if ratio.0 > ratio.1 {
        lemma_scaled_side(size, ratio.1, ratio.0);
    } else {
        lemma_scaled_side(size, ratio.0, ratio.1);
    }
}

proof fn lemma_scaled_side(size: nat, short: nat, long: nat)
    requires
        short <= long,
        long > 0,
    ensures
        size * short / long <= size,
{
    assert(size * short / long <= size) by (nonlinear_arith)
        requires
            short <= long,
            long > 0,
            size >= 0,
            short >= 0,
    ;
}

/// Calls `num::Integer::gcd` on two `u32` values. The call returns their
/// greatest common divisor, with `gcd(0, n) == n` and `gcd(0, 0) == 0`; this
/// contract states that the result is the `gcd` defined above.
#[verifier::external_body]
fn gcd_u32(a: u32, b: u32) -> (g: u32)
    ensures
        g == gcd(a as nat, b as nat),
{
    num::Integer::gcd(&a, &b)
}

/// Reduces a width/height pair to its aspect ratio in lowest terms.
///
/// A pair with one side 0 reduces to `(0, 1)` or `(1, 0)`; the pair `(0, 0)`
/// is returned unchanged.
pub fn compute_ratio(w: u32, h: u32) -> (r: (u32, u32))
    ensures
        (r.0 as nat, r.1 as nat) == reduce(w as nat, h as nat),
        w > 0 || h > 0 ==> gcd(r.0 as nat, r.1 as nat) == 1,
{
    proof {
        if w > 0 || h > 0 {
            lemma_reduce_lowest_terms(w as nat, h as nat);
        }
    }
    let g: u32 = gcd_u32(w, h);
    if g == 0 {
        (0, 0)
    } else {
        (w / g, h / g)
    }
}

/// Pixel dimensions for a ratio: the longer side is `size`, the shorter side is
/// `size` scaled by the ratio and rounded down. A ratio wider than tall puts
/// `size` on the width; any other ratio puts it on the height.
pub fn ratio_to_dim(ratio: (u32, u32), size: u32) -> (d: (u32, u32))
    requires
        ratio.0 > 0 || ratio.1 > 0,
    ensures
        (d.0 as nat, d.1 as nat) == dimensions_for((ratio.0 as nat, ratio.1 as nat), size as nat),
        d.0 <= size,
        d.1 <= size,
        d.0 == size || d.1 == size,
{
    proof {
        lemma_dimensions_for_bounds((ratio.0 as nat, ratio.1 as nat), size as nat);
    }
    if ratio.0 > ratio.1 {
        (size, scale(size, ratio.1, ratio.0))
    } else {
        (scale(size, ratio.0, ratio.1), size)
    }
}

fn scale(size: u32, short: u32, long: u32) -> (s: u32)
    requires
        short <= long,
        long > 0,
    ensures
        s == (size as nat) * (short as nat) / (long as nat),
        s <= size,
{
    proof {
        lemma_scaled_side(size as nat, short as nat, long as nat);
        assert((size as nat) * (short as nat) <= 0xFFFF_FFFF * 0xFFFF_FFFF) by (nonlinear_arith)
            requires
                size <= 0xFFFF_FFFF,
                short <= 0xFFFF_FFFF,
        ;
    }
    let product: u64 = (size as u64) * (short as u64);
    (product / (long as u64)) as u32
}

} // verus!
