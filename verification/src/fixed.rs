//! Fixed-point scalars.
//!
//! Every length, coordinate and speed of the crate is an `i64` that counts
//! millionths of a world unit. Products of two such numbers are carried in
//! `i128` and brought back to scale by a division that rounds towards zero.
use vstd::prelude::*;

verus! {

/// How many raw units make one world unit.
pub const SCALE: i64 = 1_000_000;

/// Largest magnitude of a coordinate of the static world: 500 world
/// units. Within it the squared length of the vector product of two
/// edges of a triangle, which is of the fourth degree in the coordinates,
/// fits 128 bits.
pub const COORD_MAX: i64 = 500_000_000;

/// Largest magnitude of a coordinate that the geometry routines accept for
/// a query point: eight times [`COORD_MAX`]. Within it the triple product
/// that places a point against an edge of a triangle fits 128 bits.
pub const REACH: i64 = 4_000_000_000;

/// Two scalars closer than this (a ten-thousandth of a world unit) count
/// as equal.
pub const EPSILON: i64 = 100;

/// The magnitude of `a`.
pub open spec fn abs_int(a: int) -> int {
    if a >= 0 {
        a
    } else {
        -a
    }
}

/// The sign of `a`: -1, 0 or 1.
pub open spec fn sign_int(a: int) -> int {
    if a > 0 {
        1
    } else if a < 0 {
        -1
    } else {
        0
    }
}

/// Quotient of `a` by a positive `b`, rounded towards zero.
pub open spec fn div_trunc(a: int, b: int) -> int
    recommends
        b > 0,
{
    if a >= 0 {
        a / b
    } else {
        -((-a) / b)
    }
}

/// `r` is the integer square root of `n`: the largest integer whose square
/// does not exceed `n`.
pub open spec fn is_floor_sqrt(n: int, r: int) -> bool {
    0 <= r && r * r <= n && n < (r + 1) * (r + 1)
}

/// The integer square root of `n`, and zero for a negative `n`.
pub open spec fn isqrt(n: int) -> int {
    if n <= 0 {
        0
    } else {
        choose|r: int| is_floor_sqrt(n, r)
    }
}

/// An integer square root is unique.
pub proof fn lemma_floor_sqrt_unique(n: int, r: int, s: int)
    requires
        is_floor_sqrt(n, r),
        is_floor_sqrt(n, s),
    ensures
        r == s,
{
    if r < s {
        assert((r + 1) * (r + 1) <= s * s) by (nonlinear_arith)
            requires
                0 <= r,
                r + 1 <= s,
        ;
    }
    if s < r {
        assert((s + 1) * (s + 1) <= r * r) by (nonlinear_arith)
            requires
                0 <= s,
                s + 1 <= r,
        ;
    }
}

/// Whoever exhibits an integer square root of `n` has found `isqrt(n)`.
pub proof fn lemma_isqrt_is(n: int, r: int)
    requires
        is_floor_sqrt(n, r),
    ensures
        isqrt(n) == r,
{
    if n <= 0 {
        assert(r * r >= 0) by (nonlinear_arith);
        assert(r == 0) by (nonlinear_arith)
            requires
                0 <= r,
                r * r <= 0,
        ;
    } else {
        let c = choose|c: int| is_floor_sqrt(n, c);
        lemma_floor_sqrt_unique(n, r, c);
    }
}

/// For `n >= 0`, `isqrt(n)` is an integer square root of `n`.
pub proof fn lemma_isqrt_floor(n: int)
    requires
        n >= 0,
    ensures
        is_floor_sqrt(n, isqrt(n)),
    decreases n,
{
    if n == 0 {
    } else {
        lemma_isqrt_floor(n - 1);
        let p = isqrt(n - 1);
        if (p + 1) * (p + 1) <= n {
            assert(n < (p + 2) * (p + 2)) by (nonlinear_arith)
                requires
                    n - 1 < (p + 1) * (p + 1),
                    0 <= p,
            ;
            assert(is_floor_sqrt(n, p + 1));
        } else {
            assert(p * p <= n);
            assert(is_floor_sqrt(n, p));
        }
    }
}

/// The integer square root is monotone.
pub proof fn lemma_isqrt_monotone(a: int, b: int)
    requires
        a <= b,
    ensures
        isqrt(a) <= isqrt(b),
{
    if a <= 0 {
        if b > 0 {
            lemma_isqrt_floor(b);
        }
    } else {
        lemma_isqrt_floor(a);
        lemma_isqrt_floor(b);
        let r = isqrt(a);
        let s = isqrt(b);
        if s < r {
            assert((s + 1) * (s + 1) <= r * r) by (nonlinear_arith)
                requires
                    0 <= s,
                    s + 1 <= r,
            ;
        }
    }
}

/// The integer square root of a perfect square is its non-negative root.
pub proof fn lemma_isqrt_square(r: int)
    requires
        r >= 0,
    ensures
        isqrt(r * r) == r,
{
    assert(r * r < (r + 1) * (r + 1)) by (nonlinear_arith)
        requires
            r >= 0,
    ;
    lemma_isqrt_is(r * r, r);
}

/// Computes the integer square root by bisection.
pub fn integer_sqrt(n: u128) -> (r: u64)
    ensures
        r == isqrt(n as int),
        is_floor_sqrt(n as int, r as int),
{
    let mut lo: u128 = 0;
    let mut hi: u128 = 0x1_0000_0000_0000_0000;
    proof {
        assert(0x1_0000_0000_0000_0000int * 0x1_0000_0000_0000_0000int
            == 0x1_0000_0000_0000_0000_0000_0000_0000_0000int) by (nonlinear_arith);
    }
    while hi - lo > 1
        invariant
            lo < hi <= 0x1_0000_0000_0000_0000,
            lo * lo <= n,
            n < hi * hi,
        decreases hi - lo,
    {
        let mid: u128 = lo + (hi - lo) / 2;
        assert(mid * mid < 0x1_0000_0000_0000_0000_0000_0000_0000_0000) by (nonlinear_arith)
            requires
                mid < 0x1_0000_0000_0000_0000,
        ;
        if mid * mid <= n {
            lo = mid;
        } else {
            hi = mid;
        }
    }
    proof {
        lemma_isqrt_is(n as int, lo as int);
    }
    lo as u64
}

/// A quotient rounded towards zero is no larger in magnitude than the
/// dividend, keeps its sign, and misses the exact quotient by less than one.
pub proof fn lemma_div_trunc_bounds(a: int, b: int)
    requires
        b > 0,
    ensures
        abs_int(div_trunc(a, b)) <= abs_int(a),
        a >= 0 ==> div_trunc(a, b) >= 0,
        a <= 0 ==> div_trunc(a, b) <= 0,
        abs_int(div_trunc(a, b)) * b <= abs_int(a),
        abs_int(a) < (abs_int(div_trunc(a, b)) + 1) * b,
        div_trunc(-a, b) == -div_trunc(a, b),
{
    let m = abs_int(a);
    let q = m / b;
    assert(0 <= q && q * b <= m && m < (q + 1) * b && q <= m) by (nonlinear_arith)
        requires
            m >= 0,
            b > 0,
            q == m / b,
    ;
}

/// What a quotient rounded towards zero leaves over has the sign of the
/// dividend and is smaller than the divisor.
pub proof fn lemma_div_trunc_remainder(a: int, b: int)
    requires
        b > 0,
    ensures
        a >= 0 ==> 0 <= a - b * div_trunc(a, b) < b,
        a <= 0 ==> -b < a - b * div_trunc(a, b) <= 0,
{
    let m = abs_int(a);
    assert(m == b * (m / b) + m % b && 0 <= m % b < b) by (nonlinear_arith)
        requires
            b > 0,
    ;
    if a < 0 {
        assert(b * (-(m / b)) == -(b * (m / b))) by (nonlinear_arith);
    }
}

/// If `|a| <= k * b` then the quotient of `a` by `b` is at most `k` in
/// magnitude.
pub proof fn lemma_div_trunc_le(a: int, b: int, k: int)
    requires
        b > 0,
        k >= 0,
        abs_int(a) <= k * b,
    ensures
        abs_int(div_trunc(a, b)) <= k,
{
    lemma_div_trunc_bounds(a, b);
    let q = abs_int(div_trunc(a, b));
    assert(q <= k) by (nonlinear_arith)
        requires
            q * b <= abs_int(a),
            abs_int(a) <= k * b,
            b > 0,
            q >= 0,
            k >= 0,
    ;
}

/// The product of two bounded integers is bounded by the product of the
/// bounds.
pub proof fn lemma_product_bound(a: int, b: int, ma: int, mb: int)
    requires
        abs_int(a) <= ma,
        abs_int(b) <= mb,
    ensures
        abs_int(a * b) <= ma * mb,
        -(ma * mb) <= a * b <= ma * mb,
{
    assert(-(ma * mb) <= a * b <= ma * mb) by (nonlinear_arith)
        requires
            -ma <= a <= ma,
            -mb <= b <= mb,
    ;
}

} // verus!
