//! Distance between two RGB colours: the square root of the sum of the
//! squared differences of their channels. The sum itself serves to compare
//! distances; the square root is given rounded down to a whole number.

use vstd::prelude::*;

verus! {

/// A number times itself.
pub open spec fn square(x: int) -> int {
    x * x
}

/// The sum over the three channels of the squared channel differences.
pub open spec fn squared_distance(a: [u8; 3], b: [u8; 3]) -> int {
    square(a[0] as int - b[0] as int) + square(a[1] as int - b[1] as int) + square(
        a[2] as int - b[2] as int,
    )
}

/// `r` is the square root of `n`, rounded down.
pub open spec fn is_floor_sqrt(n: int, r: int) -> bool {
    0 <= r && r * r <= n < (r + 1) * (r + 1)
}

/// The square root of `n`, rounded down.
pub open spec fn floor_sqrt(n: int) -> int {
    choose|r: int| is_floor_sqrt(n, r)
}

/// The Euclidean distance between two colours, rounded down to a whole number.
pub open spec fn distance(a: [u8; 3], b: [u8; 3]) -> int {
    floor_sqrt(squared_distance(a, b))
}

/// At most one number is the rounded-down square root of `n`.
pub proof fn lemma_floor_sqrt_unique(n: int, r: int, s: int)
    requires
        is_floor_sqrt(n, r),
        is_floor_sqrt(n, s),
    ensures
        r == s,
{
    assert(r == s) by (nonlinear_arith)
        requires
            0 <= r,
            0 <= s,
            r * r <= n < (r + 1) * (r + 1),
            s * s <= n < (s + 1) * (s + 1),
    ;
}

/// Every number from 0 up has a rounded-down square root.
pub proof fn lemma_floor_sqrt_exists(n: int)
    requires
        n >= 0,
    ensures
        is_floor_sqrt(n, floor_sqrt(n)),
    decreases n,
{
    if n == 0 {
        assert(is_floor_sqrt(0, 0));
    } else {
        lemma_floor_sqrt_exists(n - 1);
        let r = floor_sqrt(n - 1);
        if n < (r + 1) * (r + 1) {
            assert(is_floor_sqrt(n, r));
        } else {
            assert(is_floor_sqrt(n, r + 1)) by (nonlinear_arith)
                requires
                    0 <= r,
                    r * r <= n - 1 < (r + 1) * (r + 1),
                    n >= (r + 1) * (r + 1),
            ;
        }
    }
}

/// The squared distance is never negative and fits comfortably in 32 bits.
pub proof fn lemma_squared_distance_bounds(a: [u8; 3], b: [u8; 3])
    ensures
        0 <= squared_distance(a, b) <= 3 * 255 * 255,
{
    lemma_square_bounds(a[0] as int - b[0] as int);
    lemma_square_bounds(a[1] as int - b[1] as int);
    lemma_square_bounds(a[2] as int - b[2] as int);
}

proof fn lemma_square_bounds(x: int)
    requires
        -255 <= x <= 255,
    ensures
        0 <= square(x) <= 255 * 255,
        square(x) == 0 <==> x == 0,
        square(x) == square(-x),
{
    assert(0 <= x * x <= 255 * 255 && (x * x == 0 <==> x == 0) && x * x == (-x) * (-x))
        by (nonlinear_arith)
        requires
            -255 <= x <= 255,
    ;
}

/// The sum of squared differences is 0 exactly when the two colours are the
/// same colour.
pub proof fn lemma_squared_distance_zero_iff_equal(a: [u8; 3], b: [u8; 3])
    ensures
        squared_distance(a, b) == 0 <==> a == b,
{
    broadcast use vstd::array::group_array_axioms;

    lemma_square_bounds(a[0] as int - b[0] as int);
    lemma_square_bounds(a[1] as int - b[1] as int);
    lemma_square_bounds(a[2] as int - b[2] as int);
    if squared_distance(a, b) == 0 {
        assert(a[0] == b[0] && a[1] == b[1] && a[2] == b[2]);
        assert(a =~= b);
    }
}

/// The sum of squared differences from `a` to `b` is the sum from `b` to `a`.
pub proof fn lemma_squared_distance_symmetric(a: [u8; 3], b: [u8; 3])
    ensures
        squared_distance(a, b) == squared_distance(b, a),
{
    lemma_square_bounds(a[0] as int - b[0] as int);
    lemma_square_bounds(a[1] as int - b[1] as int);
    lemma_square_bounds(a[2] as int - b[2] as int);
}

/// The distance from `a` to `b` is the distance from `b` to `a`.
pub proof fn lemma_distance_symmetric(a: [u8; 3], b: [u8; 3])
    ensures
        distance(a, b) == distance(b, a),
{
    lemma_squared_distance_symmetric(a, b);
}

/// Two colours are at distance 0 exactly when they are the same colour.
pub proof fn lemma_distance_zero_iff_equal(a: [u8; 3], b: [u8; 3])
    ensures
        distance(a, b) == 0 <==> a == b,
{
    lemma_squared_distance_bounds(a, b);
    lemma_squared_distance_zero_iff_equal(a, b);
    let n = squared_distance(a, b);
    lemma_floor_sqrt_exists(n);
    if n == 0 {
        assert(is_floor_sqrt(0, 0));
        lemma_floor_sqrt_unique(0, 0, floor_sqrt(0));
    }
    if distance(a, b) == 0 {
        assert(is_floor_sqrt(n, 0));
    }
}

/// The square root of `n`, rounded down, found by bisection.
pub fn isqrt(n: u32) -> (r: u32)
    ensures
        r == floor_sqrt(n as int),
        is_floor_sqrt(n as int, r as int),
{
    let mut lo: u64 = 0;
    let mut hi: u64 = 65536;
    while hi - lo > 1
        invariant
            lo < hi <= 65536,
            lo * lo <= n < hi * hi,
        decreases hi - lo,
    {
        let mid: u64 = lo + (hi - lo) / 2;
        assert(mid * mid < 65536 * 65536) by (nonlinear_arith)
            requires
                mid < 65536,
        ;
        if mid * mid <= n as u64 {
            lo = mid;
        } else {
            hi = mid;
        }
    }
    proof {
        lemma_floor_sqrt_exists(n as int);
        lemma_floor_sqrt_unique(n as int, lo as int, floor_sqrt(n as int));
    }
    lo as u32
}

fn channel_gap(x: u8, y: u8) -> (s: u32)
    ensures
        s == square(x as int - y as int),
        s <= 255 * 255,
{
    let d: u32 = if x >= y {
        (x - y) as u32
    } else {
        (y - x) as u32
    };
    proof {
        lemma_square_bounds(x as int - y as int);
        assert(d * d == square(x as int - y as int)) by (nonlinear_arith)
            requires
                d == x as int - y as int || d == y as int - x as int,
        ;
    }
    d * d
}

/// The sum, over red, green and blue, of the squared differences of the
/// channels of two colours. It orders colours by their distance exactly: no
/// rounding comes between.
pub fn squared_color_distance(c1: [u8; 3], c2: [u8; 3]) -> (s: u32)
    ensures
        s == squared_distance(c1, c2),
        s <= 3 * 255 * 255,
{
    channel_gap(c1[0], c2[0]) + channel_gap(c1[1], c2[1]) + channel_gap(c1[2], c2[2])
}

/// The distance between two colours: the square root, rounded down, of the sum
/// of the squared differences of their red, green and blue channels.
pub fn color_distance(c1: [u8; 3], c2: [u8; 3]) -> (d: u32)
    ensures
        d == distance(c1, c2),
{
    isqrt(squared_color_distance(c1, c2))
}

} // verus!
