//! Magnitude limiting.  A vector above a magnitude cap is scaled down to
//! the cap through an integer renormalisation (components multiplied by
//! the cap and divided by the ceiling square root of the squared norm); a
//! velocity below the minimum speed is doubled until renormalising it to
//! just above the minimum is exact enough.  The lemmas here bound the
//! squared norm of the renormalised vector from both sides.

use vstd::prelude::*;
use crate::geom::{
    Vec2, abs_i, div_t, div_trunc, isqrt_up, lemma_div_bounds, lemma_mul_le, nsq, scale_pt, sq,
    sqrt_ceil,
};

verus! {

/// Squaring ignores sign.
pub proof fn lemma_sq_abs(x: int)
    ensures
        sq(abs_i(x)) == sq(x),
        0 <= sq(x),
{
    assert((-x) * (-x) == x * x && 0 <= x * x) by (nonlinear_arith);
}

/// A vector whose squared norm is at most `b * b` has both components in
/// `[-b, b]`.
pub proof fn lemma_comp_bound(x: int, y: int, b: int)
    requires
        0 <= b,
        sq(x) + sq(y) <= b * b,
    ensures
        -b <= x <= b,
        -b <= y <= b,
{
    assert(-b <= x <= b && -b <= y <= b) by (nonlinear_arith)
        requires
            0 <= b,
            x * x + y * y <= b * b,
    ;
}

/// Squared Euclidean norm of a machine vector.
pub fn norm_sq(v: Vec2) -> (s: i64)
    requires
        -1_400_000_000 <= v.x <= 1_400_000_000,
        -1_400_000_000 <= v.y <= 1_400_000_000,
    ensures
        s == nsq(v@),
        0 <= s <= 0x3780_0000_0000_0000,
{
    proof {
        assert(0 <= (v.x as int) * (v.x as int) <= 1_960_000_000_000_000_000int
            && 0 <= (v.y as int) * (v.y as int) <= 1_960_000_000_000_000_000int)
            by (nonlinear_arith)
            requires
                -1_400_000_000 <= v.x as int <= 1_400_000_000,
                -1_400_000_000 <= v.y as int <= 1_400_000_000,
        ;
    }
    v.x * v.x + v.y * v.y
}

/// One component of the renormalisation: the square of the truncated
/// quotient equals the square of the quotient of absolute values, and the
/// quotient of absolute values sits between the bounds that Euclidean
/// division gives.
proof fn lemma_div_t_sq(a: int, m: int, l: int)
    requires
        1 <= l,
        0 <= m,
    ensures
        sq(div_t(a * m, l)) == sq((abs_i(a) * m) / l),
        0 <= abs_i(a) * m,
        0 <= (abs_i(a) * m) / l,
        l * ((abs_i(a) * m) / l) <= abs_i(a) * m,
        abs_i(a) * m < l * ((abs_i(a) * m) / l) + l,
{
    let ax = abs_i(a);
    assert(0 <= ax * m) by (nonlinear_arith)
        requires
            0 <= ax,
            0 <= m,
    ;
    lemma_div_bounds(ax * m, l);
    if a >= 0 {
        assert(a * m == ax * m);
    } else {
        assert(a * m <= 0 && -(a * m) == ax * m) by (nonlinear_arith)
            requires
                a < 0,
                0 <= m,
                ax == -a,
        ;
        if a * m == 0 {
            assert(ax * m == 0);
        } else {
            let d = (ax * m) / l;
            assert(div_t(a * m, l) == -d);
            assert((-d) * (-d) == d * d) by (nonlinear_arith);
        }
    }
}

/// Core upper bound: truncated scaling by `m / l` of a vector of norm at
/// most `l` yields a vector of norm at most `m`.
proof fn lemma_scale_core_upper(p: int, q: int, dx: int, dy: int, l: int, m: int)
    requires
        1 <= l,
        0 <= m,
        0 <= p,
        0 <= q,
        0 <= dx,
        0 <= dy,
        l * dx <= p,
        l * dy <= q,
        p * p + q * q <= (m * m) * (l * l),
    ensures
        dx * dx + dy * dy <= m * m,
{
    assert((l * dx) * (l * dx) <= p * p && (l * dy) * (l * dy) <= q * q)
        by (nonlinear_arith)
        requires
            0 <= dx,
            0 <= dy,
            1 <= l,
            l * dx <= p,
            l * dy <= q,
    ;
    assert(dx * dx + dy * dy <= m * m) by (nonlinear_arith)
        requires
            (l * dx) * (l * dx) <= p * p,
            (l * dy) * (l * dy) <= q * q,
            p * p + q * q <= (m * m) * (l * l),
            1 <= l,
    ;
}

/// Core lower bound: if the squared norm is moreover above `(l - 1)^2`,
/// truncation loses at most `6 m` of the squared target norm.
proof fn lemma_scale_core_lower(p: int, q: int, dx: int, dy: int, l: int, m: int)
    requires
        1 <= l,
        0 <= m,
        m <= l,
        0 <= p,
        0 <= q,
        0 <= dx,
        0 <= dy,
        l * dx <= p,
        p < l * dx + l,
        l * dy <= q,
        q < l * dy + l,
        p * p + q * q >= (m * m) * (l * l - 2 * l + 2),
        p * p + q * q <= (m * m) * (l * l),
    ensures
        dx * dx + dy * dy >= m * m - 6 * m,
{
    assert((p + q) * (p + q) <= 2 * (p * p + q * q)) by (nonlinear_arith);
    assert(p + q <= 2 * (m * l)) by (nonlinear_arith)
        requires
            (p + q) * (p + q) <= 2 * (p * p + q * q),
            p * p + q * q <= (m * m) * (l * l),
            0 <= p,
            0 <= q,
            0 <= m,
            0 <= l,
    ;
    let e1 = p - l * dx;
    let e2 = q - l * dy;
    assert(0 <= e1 <= l - 1 && 0 <= e2 <= l - 1);
    assert((l * l) * (dx * dx + dy * dy) == (p - e1) * (p - e1) + (q - e2) * (q - e2))
        by (nonlinear_arith)
        requires
            e1 == p - l * dx,
            e2 == q - l * dy,
    ;
    assert((p - e1) * (p - e1) >= p * p - 2 * p * (l - 1)) by (nonlinear_arith)
        requires
            0 <= e1 <= l - 1,
            0 <= p,
    ;
    assert((q - e2) * (q - e2) >= q * q - 2 * q * (l - 1)) by (nonlinear_arith)
        requires
            0 <= e2 <= l - 1,
            0 <= q,
    ;
    assert(2 * (l - 1) * (p + q) == 2 * p * (l - 1) + 2 * q * (l - 1))
        by (nonlinear_arith);
    assert((p - e1) * (p - e1) + (q - e2) * (q - e2) >= p * p + q * q - 2 * (l - 1) * (p
        + q));
    assert((l * l) * (dx * dx + dy * dy) >= p * p + q * q - 2 * (l - 1) * (p + q));
    assert(p * p + q * q - 2 * (l - 1) * (p + q) >= (l * l) * (m * m - 6 * m))
        by (nonlinear_arith)
        requires
            p * p + q * q >= (m * m) * (l * l - 2 * l + 2),
            p + q <= 2 * (m * l),
            0 <= m,
            m <= l,
            1 <= l,
    ;
    assert(dx * dx + dy * dy >= m * m - 6 * m) by (nonlinear_arith)
        requires
            (l * l) * (dx * dx + dy * dy) >= (l * l) * (m * m - 6 * m),
            1 <= l,
    ;
}

/// Renormalising a vector of squared norm at most `l * l` down to target
/// `m` keeps the squared norm at most `m * m`.
pub proof fn lemma_scale_norm_upper(v: (int, int), m: int, l: int)
    requires
        1 <= l,
        0 <= m,
        nsq(v) <= l * l,
    ensures
        nsq(scale_pt(v, m, l)) <= m * m,
{
    lemma_div_t_sq(v.0, m, l);
    lemma_div_t_sq(v.1, m, l);
    lemma_sq_abs(v.0);
    lemma_sq_abs(v.1);
    let ax = abs_i(v.0);
    let ay = abs_i(v.1);
    let p = ax * m;
    let q = ay * m;
    assert(p * p + q * q <= (m * m) * (l * l)) by (nonlinear_arith)
        requires
            p == ax * m,
            q == ay * m,
            ax * ax + ay * ay <= l * l,
            0 <= ax,
            0 <= ay,
            0 <= m,
    ;
    lemma_scale_core_upper(p, q, p / l, q / l, l, m);
}

/// Renormalising a vector whose squared norm lies in `((l-1)^2, l^2]`
/// down to a target `m <= l` loses at most `6 m` of the squared target.
pub proof fn lemma_scale_norm_lower(v: (int, int), m: int, l: int)
    requires
        1 <= l,
        0 <= m,
        m <= l,
        (l - 1) * (l - 1) < nsq(v),
        nsq(v) <= l * l,
    ensures
        nsq(scale_pt(v, m, l)) >= m * m - 6 * m,
{
    lemma_div_t_sq(v.0, m, l);
    lemma_div_t_sq(v.1, m, l);
    lemma_sq_abs(v.0);
    lemma_sq_abs(v.1);
    let ax = abs_i(v.0);
    let ay = abs_i(v.1);
    let p = ax * m;
    let q = ay * m;
    assert(p * p + q * q <= (m * m) * (l * l) && p * p + q * q >= (m * m) * (l * l
        - 2 * l + 2)) by (nonlinear_arith)
        requires
            p == ax * m,
            q == ay * m,
            ax * ax + ay * ay <= l * l,
            (l - 1) * (l - 1) < ax * ax + ay * ay,
            0 <= ax,
            0 <= ay,
            0 <= m,
    ;
    lemma_scale_core_lower(p, q, p / l, q / l, l, m);
}

/// The acceleration accumulated over a tick, clamped to magnitude
/// `mf`: left alone when already within the cap, otherwise renormalised
/// down to the cap.
pub open spec fn spec_limit_force(a: (int, int), mf: int) -> (int, int) {
    if nsq(a) <= mf * mf {
        a
    } else {
        scale_pt(a, mf, sqrt_ceil(nsq(a)))
    }
}

/// Clamp a force vector to magnitude at most `mf`.
pub fn limit_force(a: Vec2, mf: i64) -> (r: Vec2)
    requires
        1 <= mf <= 100_000,
        -1_000_000_000 <= a.x <= 1_000_000_000,
        -1_000_000_000 <= a.y <= 1_000_000_000,
    ensures
        r@ == spec_limit_force(a@, mf as int),
        nsq(r@) <= mf * mf,
        -mf <= r.x <= mf,
        -mf <= r.y <= mf,
        nsq(a@) <= mf * mf ==> r == a,
{
    let s = norm_sq(a);
    proof {
        lemma_mul_le(mf as int, mf as int, 100_000, 100_000);
    }
    if s <= mf * mf {
        proof {
            lemma_comp_bound(a.x as int, a.y as int, mf as int);
        }
        a
    } else {
        let l = isqrt_up(s);
        proof {
            lemma_mul_le(a.x as int, mf as int, 1_000_000_000, 100_000);
            lemma_mul_le(a.y as int, mf as int, 1_000_000_000, 100_000);
        }
        let rx = div_trunc(a.x * mf, l);
        let ry = div_trunc(a.y * mf, l);
        let r = Vec2 { x: rx, y: ry };
        proof {
            lemma_scale_norm_upper(a@, mf as int, l as int);
            assert(r@ == scale_pt(a@, mf as int, l as int));
            lemma_comp_bound(rx as int, ry as int, mf as int);
        }
        r
    }
}

/// Doubling a vector.
pub open spec fn vdbl(v: (int, int)) -> (int, int) {
    (2 * v.0, 2 * v.1)
}

/// Measure for the doubling recursion: how far the squared norm still is
/// from the threshold.
pub open spec fn grow_measure(v: (int, int), t: int) -> int {
    if nsq(v) >= t * t {
        0
    } else {
        t * t - nsq(v)
    }
}

/// A nonzero vector doubled until its squared norm reaches `t * t`.
/// Doubling preserves the heading exactly.
pub open spec fn grow_to(v: (int, int), t: int) -> (int, int)
    decreases grow_measure(v, t),
    when 1 <= nsq(v)
    via grow_to_dec
{
    if nsq(v) >= t * t {
        v
    } else {
        grow_to(vdbl(v), t)
    }
}

#[via_fn]
proof fn grow_to_dec(v: (int, int), t: int) {
    if nsq(v) < t * t {
        assert(nsq(vdbl(v)) == 4 * nsq(v)) by (nonlinear_arith);
    }
}

/// Double a slow nonzero vector until its squared norm reaches `t * t`.
pub fn grow(v0: Vec2, t: i64) -> (r: Vec2)
    requires
        100 <= t <= 100_000,
        1 <= nsq(v0@),
        nsq(v0@) < t * t,
    ensures
        r@ == grow_to(v0@, t as int),
        t * t <= nsq(r@) < 4 * (t * t),
        -(2 * t) <= r.x <= 2 * t,
        -(2 * t) <= r.y <= 2 * t,
{
    proof {
        lemma_mul_le(t as int, t as int, 100_000, 100_000);
    }
    let tsq: i64 = t * t;
    let mut v = v0;
    proof {
        lemma_comp_bound(v.x as int, v.y as int, t as int);
    }
    let mut s = norm_sq(v);
    while s < tsq
        invariant
            100 <= t <= 100_000,
            tsq == t * t,
            tsq <= 10_000_000_000,
            s == nsq(v@),
            1 <= s,
            nsq(v@) < 4 * (t * t),
            grow_to(v@, t as int) == grow_to(v0@, t as int),
        decreases 4 * (t * t) - s,
    {
        proof {
            lemma_comp_bound(v.x as int, v.y as int, t as int);
            assert(nsq(vdbl(v@)) == 4 * nsq(v@)) by (nonlinear_arith);
        }
        v = Vec2 { x: 2 * v.x, y: 2 * v.y };
        proof {
            assert((2 * t as int) * (2 * t as int) == 4 * ((t as int) * (t as int)))
                by (nonlinear_arith);
            lemma_comp_bound(v.x as int, v.y as int, 2 * t as int);
        }
        s = norm_sq(v);
    }
    proof {
        assert((2 * t as int) * (2 * t as int) == 4 * ((t as int) * (t as int)))
            by (nonlinear_arith);
        lemma_comp_bound(v.x as int, v.y as int, 2 * t as int);
    }
    v
}

/// The velocity rule after integration: a zero velocity stays zero; a
/// speed above `mx` is renormalised down to `mx`; a speed below `mn` is
/// doubled into range and then renormalised to sit just above `mn`; a
/// speed already in `[mn, mx]` is left untouched.
pub open spec fn spec_limit_speed(v: (int, int), mn: int, mx: int) -> (int, int) {
    let s = nsq(v);
    if s == 0 {
        v
    } else if s > mx * mx {
        scale_pt(v, mx, sqrt_ceil(s))
    } else if s < mn * mn {
        let g = grow_to(v, 4 * mn);
        scale_pt(g, mn + 10, sqrt_ceil(nsq(g)))
    } else {
        v
    }
}

/// Clamp a velocity into the speed band `[mn, mx]` (a zero velocity is
/// left at zero).
pub fn limit_speed(v: Vec2, mn: i64, mx: i64) -> (r: Vec2)
    requires
        100 <= mn <= 25_000,
        mn < mx <= 100_000,
        (mn + 10) * (mn + 10) <= mx * mx,
        mx * mx - 6 * mx >= mn * mn,
        -1_000_000 <= v.x <= 1_000_000,
        -1_000_000 <= v.y <= 1_000_000,
    ensures
        r@ == spec_limit_speed(v@, mn as int, mx as int),
        nsq(r@) <= mx * mx,
        1 <= nsq(v@) ==> mn * mn <= nsq(r@),
        nsq(v@) == 0 ==> r == v,
        mn * mn <= nsq(v@) <= mx * mx ==> r == v,
        -mx <= r.x <= mx,
        -mx <= r.y <= mx,
{
    let s = norm_sq(v);
    proof {
        lemma_mul_le(mx as int, mx as int, 100_000, 100_000);
        lemma_mul_le(mn as int, mn as int, 25_000, 25_000);
    }
    let mxsq: i64 = mx * mx;
    let mnsq: i64 = mn * mn;
    if s == 0 {
        proof {
            lemma_comp_bound(v.x as int, v.y as int, 0);
        }
        v
    } else if s > mxsq {
        let l = isqrt_up(s);
        proof {
            assert(mx < l) by (nonlinear_arith)
                requires
                    (mx as int) * (mx as int) < s,
                    s <= (l as int) * (l as int),
                    0 <= l,
                    0 <= mx,
            ;
            lemma_mul_le(v.x as int, mx as int, 1_000_000, 100_000);
            lemma_mul_le(v.y as int, mx as int, 1_000_000, 100_000);
        }
        let rx = div_trunc(v.x * mx, l);
        let ry = div_trunc(v.y * mx, l);
        let r = Vec2 { x: rx, y: ry };
        proof {
            lemma_scale_norm_upper(v@, mx as int, l as int);
            lemma_scale_norm_lower(v@, mx as int, l as int);
            assert(r@ == scale_pt(v@, mx as int, l as int));
            lemma_comp_bound(rx as int, ry as int, mx as int);
        }
        r
    } else if s < mnsq {
        proof {
            assert((mn as int) * (mn as int) <= (4 * (mn as int)) * (4 * (mn as int)))
                by (nonlinear_arith)
                requires
                    0 <= mn,
            ;
        }
        let g = grow(v, 4 * mn);
        let sg = norm_sq(g);
        let l = isqrt_up(sg);
        proof {
            assert(4 * mn <= l) by (nonlinear_arith)
                requires
                    (4 * (mn as int)) * (4 * (mn as int)) <= sg,
                    sg <= (l as int) * (l as int),
                    0 <= l,
                    0 <= mn,
            ;
            lemma_mul_le(g.x as int, (mn + 10) as int, 200_000, 100_000);
            lemma_mul_le(g.y as int, (mn + 10) as int, 200_000, 100_000);
        }
        let m = mn + 10;
        let rx = div_trunc(g.x * m, l);
        let ry = div_trunc(g.y * m, l);
        let r = Vec2 { x: rx, y: ry };
        proof {
            lemma_scale_norm_upper(g@, m as int, l as int);
            lemma_scale_norm_lower(g@, m as int, l as int);
            assert(r@ == scale_pt(g@, m as int, l as int));
            assert((m as int) * (m as int) - 6 * (m as int) >= (mn as int) * (
            mn as int)) by (nonlinear_arith)
                requires
                    m == mn + 10,
                    100 <= mn,
            ;
            lemma_comp_bound(rx as int, ry as int, m as int);
            assert(m <= mx) by (nonlinear_arith)
                requires
                    (m as int) * (m as int) <= (mx as int) * (mx as int),
                    0 <= m,
                    0 <= mx,
            ;
        }
        r
    } else {
        proof {
            lemma_comp_bound(v.x as int, v.y as int, mx as int);
        }
        v
    }
}

} // verus!
