//! Fixed-point plane geometry: the vector type, truncating division,
//! integer square roots, and the magnitude-limiting operations that the
//! steering and integration rules are built on.

use vstd::prelude::*;
use vstd::arithmetic::div_mod::lemma_fundamental_div_mod;
use vstd::arithmetic::div_mod::lemma_mod_bound;

verus! {

/// Fixed-point ticks per world unit.
pub const SCALE: i64 = 1000;

/// A plane vector in fixed-point ticks.
#[derive(Clone, Copy, Debug, PartialEq, Eq, Structural)]
pub struct Vec2 {
    pub x: i64,
    pub y: i64,
}

impl View for Vec2 {
    type V = (int, int);

    open spec fn view(&self) -> (int, int) {
        (self.x as int, self.y as int)
    }
}

impl Vec2 {
    /// The zero vector.
    pub fn zero() -> (r: Vec2)
        ensures
            r@ == (0int, 0int),
    {
        Vec2 { x: 0, y: 0 }
    }
}

pub open spec fn sq(x: int) -> int {
    x * x
}

pub open spec fn abs_i(x: int) -> int {
    if x < 0 {
        -x
    } else {
        x
    }
}

/// Squared Euclidean norm of a model vector.
pub open spec fn nsq(v: (int, int)) -> int {
    sq(v.0) + sq(v.1)
}

/// Squared Euclidean distance between two model points.
pub open spec fn dist_sq(a: (int, int), b: (int, int)) -> int {
    sq(a.0 - b.0) + sq(a.1 - b.1)
}

/// Division truncating towards zero, the semantics of `/` on machine
/// integers; on a nonnegative numerator it agrees with Euclidean division.
pub open spec fn div_t(a: int, n: int) -> int {
    if a >= 0 {
        a / n
    } else {
        -((-a) / n)
    }
}

/// `r` is the floor of the square root of `s`.
pub open spec fn is_sqrt(s: int, r: int) -> bool {
    0 <= r && r * r <= s && s < (r + 1) * (r + 1)
}

/// The floor of the square root of a nonnegative integer.
pub open spec fn sqrt_floor(s: int) -> int {
    choose|r: int| is_sqrt(s, r)
}

/// The ceiling of the square root of a nonnegative integer.
pub open spec fn sqrt_ceil(s: int) -> int {
    if sqrt_floor(s) * sqrt_floor(s) == s {
        sqrt_floor(s)
    } else {
        sqrt_floor(s) + 1
    }
}

/// Both components scaled by `m / l`, truncating towards zero.
pub open spec fn scale_pt(v: (int, int), m: int, l: int) -> (int, int) {
    (div_t(v.0 * m, l), div_t(v.1 * m, l))
}

/// Componentwise sum of two model vectors.
pub open spec fn vadd(a: (int, int), b: (int, int)) -> (int, int) {
    (a.0 + b.0, a.1 + b.1)
}

/// Bound on a square from a bound on its root.
pub proof fn lemma_sq_bound(a: int, c: int) by (nonlinear_arith)
    requires
        -c <= a <= c,
        0 <= c,
    ensures
        0 <= a * a <= c * c,
{
}

/// Bound on a product from bounds on the factors.
pub proof fn lemma_mul_le(a: int, b: int, ca: int, cb: int) by (nonlinear_arith)
    requires
        -ca <= a <= ca,
        0 <= b <= cb,
        0 <= ca,
    ensures
        -(ca * cb) <= a * b <= ca * cb,
{
}

/// Basic facts about Euclidean division by a positive divisor of a
/// nonnegative dividend.
pub proof fn lemma_div_bounds(p: int, n: int)
    requires
        0 <= p,
        1 <= n,
    ensures
        0 <= p / n <= p,
        n * (p / n) <= p,
        p < n * (p / n) + n,
{
    lemma_fundamental_div_mod(p, n);
    lemma_mod_bound(p, n);
    let q = p / n;
    let r = p % n;
    assert(0 <= q && q <= p && n * q <= p && p < n * q + n) by (nonlinear_arith)
        requires
            p == n * q + r,
            0 <= r < n,
            1 <= n,
            0 <= p,
    ;
}

/// The quotient of `a` by `n` stays within `[-b, b]` whenever `a` does so
/// after scaling by `n`.
pub proof fn lemma_div_t_bound(a: int, n: int, b: int)
    requires
        1 <= n,
        0 <= b,
        -(b * n) <= a <= b * n,
    ensures
        -b <= div_t(a, n) <= b,
        0 <= a ==> 0 <= div_t(a, n),
        a <= 0 ==> div_t(a, n) <= 0,
{
    if a >= 0 {
        lemma_div_bounds(a, n);
        let q = a / n;
        assert(q <= b) by (nonlinear_arith)
            requires
                n * q <= a,
                a <= b * n,
                1 <= n,
                0 <= q,
                0 <= b,
        ;
    } else {
        lemma_div_bounds(-a, n);
        let q = (-a) / n;
        assert(q <= b) by (nonlinear_arith)
            requires
                n * q <= -a,
                -a <= b * n,
                1 <= n,
                0 <= q,
                0 <= b,
        ;
    }
}

/// Truncating division of a machine integer by a positive divisor.
pub fn div_trunc(a: i64, n: i64) -> (q: i64)
    requires
        1 <= n,
        -0x7fff_ffff_ffff_ffff <= a,
    ensures
        q == div_t(a as int, n as int),
{
    if a >= 0 {
        let qa: u64 = (a as u64) / (n as u64);
        proof {
            lemma_div_bounds(a as int, n as int);
        }
        qa as i64
    } else {
        let m: i64 = -a;
        let qa: u64 = (m as u64) / (n as u64);
        proof {
            lemma_div_bounds(m as int, n as int);
        }
        -(qa as i64)
    }
}

/// Two floors of the same square root coincide.
pub proof fn lemma_sqrt_unique(s: int, a: int, b: int)
    requires
        is_sqrt(s, a),
        is_sqrt(s, b),
    ensures
        a == b,
{
    assert(a == b) by (nonlinear_arith)
        requires
            0 <= a,
            0 <= b,
            a * a <= s,
            s < (a + 1) * (a + 1),
            b * b <= s,
            s < (b + 1) * (b + 1),
    ;
}

/// Every nonnegative integer has an integer square-root floor.
pub proof fn lemma_sqrt_exists(s: int)
    requires
        0 <= s,
    ensures
        is_sqrt(s, sqrt_floor(s)),
    decreases s,
{
    if s == 0 {
        assert(is_sqrt(0, 0));
    } else {
        lemma_sqrt_exists(s - 1);
        let r = sqrt_floor(s - 1);
        if (r + 1) * (r + 1) <= s {
            assert(is_sqrt(s, r + 1)) by (nonlinear_arith)
                requires
                    0 <= r,
                    r * r <= s - 1,
                    s - 1 < (r + 1) * (r + 1),
                    (r + 1) * (r + 1) <= s,
            ;
        } else {
            assert(is_sqrt(s, r));
        }
    }
}

/// Floor of the integer square root, by bisection.
pub fn isqrt(s: i64) -> (r: i64)
    requires
        0 <= s <= 0x3780_0000_0000_0000,
    ensures
        is_sqrt(s as int, r as int),
        r == sqrt_floor(s as int),
        0 <= r <= 2_000_000_000,
{
    let mut lo: i64 = 0;
    let mut hi: i64 = 2_000_000_000;
    proof {
        assert((2_000_000_001int) * (2_000_000_001int) > 0x3780_0000_0000_0000int)
            by (nonlinear_arith);
    }
    while lo < hi
        invariant
            0 <= lo <= hi <= 2_000_000_000,
            lo * lo <= s,
            s < (hi + 1) * (hi + 1),
        decreases hi - lo,
    {
        let mid: i64 = lo + (hi - lo + 1) / 2;
        proof {
            assert(lo < mid <= hi) by (nonlinear_arith)
                requires
                    lo < hi,
                    mid == lo + (hi - lo + 1) / 2,
            ;
            assert((mid as int) * (mid as int) <= 4_000_000_000_000_000_000int)
                by (nonlinear_arith)
                requires
                    0 <= mid <= 2_000_000_000,
            ;
        }
        if mid * mid <= s {
            lo = mid;
        } else {
            hi = mid - 1;
        }
    }
    proof {
        assert(is_sqrt(s as int, lo as int));
        lemma_sqrt_unique(s as int, lo as int, sqrt_floor(s as int));
    }
    lo
}

/// Ceiling of the integer square root.
pub fn isqrt_up(s: i64) -> (r: i64)
    requires
        0 <= s <= 0x3780_0000_0000_0000,
    ensures
        r == sqrt_ceil(s as int),
        r * r >= s,
        s > 0 ==> (r - 1) * (r - 1) < s,
        s > 0 ==> 1 <= r,
        r <= 2_000_000_001,
{
    let f = isqrt(s);
    if f * f == s {
        proof {
            assert((f as int) * (f as int) == (s as int));
            if s > 0 {
                assert(1 <= f && (f - 1) * (f - 1) < f * f) by (nonlinear_arith)
                    requires
                        0 <= f,
                        f * f == s,
                        s > 0,
                ;
            }
        }
        f
    } else {
        proof {
            assert((f as int) * (f as int) < (s as int));
        }
        f + 1
    }
}

} // verus!
