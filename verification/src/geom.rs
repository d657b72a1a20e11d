//! Integer geometry: a Babylonian square root and the axis-aligned
//! box overlap test used by the collision resolver.

use vstd::prelude::*;
use vstd::arithmetic::div_mod::lemma_fundamental_div_mod;

verus! {

/// `r` is the integer square root of `v`: the greatest integer whose
/// square does not exceed `v`.
pub open spec fn is_isqrt(v: int, r: int) -> bool {
    0 <= r && r * r <= v && v < (r + 1) * (r + 1)
}

/// The integer square root of a non-negative value.
pub closed spec fn isqrt(v: int) -> int {
    choose|r: int| is_isqrt(v, r)
}

/// Every non-negative value has an integer square root; this builds one
/// by induction.
proof fn isqrt_witness(v: int) -> (r: int)
    requires
        v >= 0,
    ensures
        is_isqrt(v, r),
    decreases v,
{
    if v == 0 {
        assert(is_isqrt(0, 0)) by (nonlinear_arith);
        0
    } else {
        let p = isqrt_witness(v - 1);
        if (p + 1) * (p + 1) <= v {
            // p * p <= v - 1 < (p + 1) * (p + 1) <= v forces v == (p + 1)^2.
            assert(v == (p + 1) * (p + 1));
            assert((p + 2) * (p + 2) > (p + 1) * (p + 1)) by (nonlinear_arith)
                requires
                    p >= 0;
            assert(is_isqrt(v, p + 1));
            p + 1
        } else {
            assert(is_isqrt(v, p));
            p
        }
    }
}

/// `isqrt(v)` satisfies the defining property of the integer square root.
pub proof fn lemma_isqrt_spec(v: int)
    requires
        v >= 0,
    ensures
        is_isqrt(v, isqrt(v)),
{
    let w = isqrt_witness(v);
    assert(is_isqrt(v, w));
}

/// The integer square root is unique.
pub proof fn lemma_isqrt_unique(v: int, r: int)
    requires
        is_isqrt(v, r),
    ensures
        r == isqrt(v),
{
    lemma_isqrt_spec(v);
    let s = isqrt(v);
    if r < s {
        assert((r + 1) * (r + 1) <= s * s) by (nonlinear_arith)
            requires
                0 <= r,
                r + 1 <= s;
    }
    if s < r {
        assert((s + 1) * (s + 1) <= r * r) by (nonlinear_arith)
            requires
                0 <= s,
                s + 1 <= r;
    }
}

/// One Babylonian refinement from any positive guess `x` stays at or
/// above the integer square root.
proof fn lemma_newton_step_above(v: int, x: int)
    requires
        v >= 1,
        x >= 1,
    ensures
        (x + v / x) / 2 >= isqrt(v),
{
    lemma_isqrt_spec(v);
    let s = isqrt(v);
    let q = v / x;
    lemma_fundamental_div_mod(v, x);
    assert(v == x * q + v % x);
    assert(0 <= v % x < x);
    // (x - s)^2 >= 0 gives x^2 + s^2 >= 2*s*x, and s^2 <= v = q*x + rem,
    // so x^2 + q*x + rem >= 2*s*x; with rem < x this forces x + q >= 2*s.
    assert(x + q >= 2 * s) by (nonlinear_arith)
        requires
            x >= 1,
            s >= 0,
            s * s <= v,
            v == x * q + v % x,
            0 <= v % x < x;
    assert((x + q) / 2 >= s);
}

/// Integer square root by Babylonian iteration: refine `y = (x + v/x) / 2`
/// until `y >= x`. Returns the exact integer square root, so
/// `sqrt_approx(0) == 0`, `sqrt_approx(1) == 1` and `sqrt_approx(25) == 5`.
pub fn sqrt_approx(value: u64) -> (r: u64)
    requires
        value < 0x8000_0000_0000_0000,
    ensures
        r == isqrt(value as int),
        is_isqrt(value as int, r as int),
{
    if value == 0 {
        proof {
            lemma_isqrt_unique(0, 0);
        }
        return 0;
    }
    if value == 1 {
        proof {
            lemma_isqrt_unique(1, 1);
        }
        return 1;
    }
    let mut x: u64 = value;
    let mut y: u64 = (value + 1) / 2;
    proof {
        assert(value / value == 1) by (nonlinear_arith)
            requires
                value >= 1;
        lemma_newton_step_above(value as int, value as int);
        lemma_isqrt_spec(value as int);
        let s = isqrt(value as int);
        assert((x + 1) * (x + 1) > value) by (nonlinear_arith)
            requires
                x == value,
                value >= 2;
    }
    while y < x
        invariant
            1 <= x <= value,
            y <= value,
            2 <= value < 0x8000_0000_0000_0000,
            y == (x + value / x) / 2,
            (x + 1) * (x + 1) > value,
        decreases x,
    {
        proof {
            // The refinement y = (x + v/x)/2 never drops below the root,
            // so (y + 1)^2 > value keeps holding as y becomes the new x.
            lemma_newton_step_above(value as int, x as int);
            lemma_isqrt_spec(value as int);
            let s = isqrt(value as int);
            assert(s >= 1) by (nonlinear_arith)
                requires
                    value >= 2,
                    s >= 0,
                    value < (s + 1) * (s + 1);
            assert((y + 1) * (y + 1) > value) by (nonlinear_arith)
                requires
                    y >= s,
                    s >= 0,
                    value < (s + 1) * (s + 1);
        }
        x = y;
        proof {
            lemma_fundamental_div_mod(value as int, x as int);
            assert(value / x <= value) by (nonlinear_arith)
                requires
                    1 <= x,
                    0 <= value,
                    value == x * (value / x) + value % x,
                    0 <= value % x;
        }
        y = (x + value / x) / 2;
    }
    proof {
        // On exit y >= x, so (x + v/x)/2 >= x, hence v/x >= x and x*x <= v.
        let q = (value / x) as int;
        lemma_fundamental_div_mod(value as int, x as int);
        assert(x + q >= 2 * x);
        assert(x * x <= value) by (nonlinear_arith)
            requires
                x >= 1,
                q >= x,
                value == x * q + value % x,
                0 <= value % x;
        lemma_isqrt_unique(value as int, x as int);
    }
    x
}

/// An axis-aligned box: top-left corner and extent, in pixels.
#[derive(Clone, Copy, PartialEq, Eq, Structural)]
pub struct Rect {
    /// Horizontal coordinate of the left edge.
    pub x: u32,
    /// Vertical coordinate of the top edge.
    pub y: u32,
    /// Width in pixels.
    pub w: u32,
    /// Height in pixels.
    pub h: u32,
}

/// Two boxes overlap when each one's left edge lies strictly left of the
/// other's right edge, and likewise vertically.
pub open spec fn spec_aabb_overlap(a: Rect, b: Rect) -> bool {
    a.x < b.x + b.w && b.x < a.x + a.w && a.y < b.y + b.h && b.y < a.y + a.h
}

/// The four-inequality axis-aligned bounding-box overlap test.
pub fn aabb_overlap(a: Rect, b: Rect) -> (r: bool)
    requires
        a.x + a.w <= u32::MAX,
        a.y + a.h <= u32::MAX,
        b.x + b.w <= u32::MAX,
        b.y + b.h <= u32::MAX,
    ensures
        r == spec_aabb_overlap(a, b),
{
    a.x < b.x + b.w && b.x < a.x + a.w && a.y < b.y + b.h && b.y < a.y + a.h
}

/// Collision symmetry: swapping the arguments of the overlap test yields
/// the same result.
pub proof fn lemma_aabb_symmetric(a: Rect, b: Rect)
    ensures
        spec_aabb_overlap(a, b) == spec_aabb_overlap(b, a),
{
}

} // verus!
