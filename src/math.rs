//! Fixed-point vectors in two and three dimensions, and the disk clamp that caps
//! a planar vector's length.
use vstd::prelude::*;
use crate::fixed::{
    fx_minus, fx_negate, fx_plus, fx_times, minus, negate, plus, times,
};

verus! {

/// A planar vector of fixed-point components.
#[derive(Clone, Copy, Debug, PartialEq, Eq)]
pub struct Vec2 {
    pub x: i64,
    pub y: i64,
}

/// A spatial vector of fixed-point components.
#[derive(Clone, Copy, Debug, PartialEq, Eq)]
pub struct Vec3 {
    pub x: i64,
    pub y: i64,
    pub z: i64,
}

pub open spec fn dot2(a: Vec2, b: Vec2) -> i64 {
    plus(times(a.x, b.x), times(a.y, b.y))
}

pub open spec fn dot3(a: Vec3, b: Vec3) -> i64 {
    plus(plus(times(a.x, b.x), times(a.y, b.y)), times(a.z, b.z))
}

pub open spec fn scaled2(a: Vec2, s: i64) -> Vec2 {
    Vec2 { x: times(a.x, s), y: times(a.y, s) }
}

pub open spec fn scaled3(a: Vec3, s: i64) -> Vec3 {
    Vec3 { x: times(a.x, s), y: times(a.y, s), z: times(a.z, s) }
}

pub open spec fn sum2(a: Vec2, b: Vec2) -> Vec2 {
    Vec2 { x: plus(a.x, b.x), y: plus(a.y, b.y) }
}

pub open spec fn sum3(a: Vec3, b: Vec3) -> Vec3 {
    Vec3 { x: plus(a.x, b.x), y: plus(a.y, b.y), z: plus(a.z, b.z) }
}

pub open spec fn cross3(a: Vec3, b: Vec3) -> Vec3 {
    Vec3 {
        x: minus(times(a.y, b.z), times(a.z, b.y)),
        y: minus(times(a.z, b.x), times(a.x, b.z)),
        z: minus(times(a.x, b.y), times(a.y, b.x)),
    }
}

/// The vector `a` turned a quarter turn counter-clockwise: of unit length and
/// orthogonal to `a` when `a` is a unit vector.
pub open spec fn quarter_turn(a: Vec2) -> Vec2 {
    Vec2 { x: negate(a.y), y: a.x }
}

/// Squared Euclidean length of the raw components.
pub open spec fn norm_sq(x: int, y: int) -> int {
    x * x + y * y
}

/// `s` is the smallest natural number whose square reaches `n`.
pub open spec fn is_ceil_root(n: int, s: int) -> bool {
    s >= 0 && n <= s * s && (s == 0 || (s - 1) * (s - 1) < n)
}

/// The ceiling of the square root of `n`.
pub open spec fn ceil_root(n: int) -> int {
    choose|s: int| is_ceil_root(n, s)
}

/// Raw quotient `p / d` rounded toward zero, for `d > 0`.
pub open spec fn toward_zero(p: int, d: int) -> int {
    if p >= 0 {
        p / d
    } else {
        -((-p) / d)
    }
}

/// The planar vector `v` with its length capped to `limit`: unchanged where its
/// length is at most `limit`, and otherwise scaled by `limit / |v|`, with the
/// length taken as the ceiling square root of the raw squared length and each
/// component rounded toward zero.
pub open spec fn disk_clamp(v: Vec2, limit: i64) -> Vec2 {
    let n = norm_sq(v.x as int, v.y as int);
    if n <= limit * limit {
        v
    } else {
        let s = ceil_root(n);
        Vec2 {
            x: toward_zero(v.x * limit, s) as i64,
            y: toward_zero(v.y * limit, s) as i64,
        }
    }
}

pub fn dot2_exec(a: &Vec2, b: &Vec2) -> (r: i64)
    ensures
        r == dot2(*a, *b),
{
    fx_plus(fx_times(a.x, b.x), fx_times(a.y, b.y))
}

pub fn dot3_exec(a: &Vec3, b: &Vec3) -> (r: i64)
    ensures
        r == dot3(*a, *b),
{
    fx_plus(fx_plus(fx_times(a.x, b.x), fx_times(a.y, b.y)), fx_times(a.z, b.z))
}

pub fn scaled2_exec(a: &Vec2, s: i64) -> (r: Vec2)
    ensures
        r == scaled2(*a, s),
{
    Vec2 { x: fx_times(a.x, s), y: fx_times(a.y, s) }
}

pub fn scaled3_exec(a: &Vec3, s: i64) -> (r: Vec3)
    ensures
        r == scaled3(*a, s),
{
    Vec3 { x: fx_times(a.x, s), y: fx_times(a.y, s), z: fx_times(a.z, s) }
}

pub fn sum2_exec(a: &Vec2, b: &Vec2) -> (r: Vec2)
    ensures
        r == sum2(*a, *b),
{
    Vec2 { x: fx_plus(a.x, b.x), y: fx_plus(a.y, b.y) }
}

pub fn sum3_exec(a: &Vec3, b: &Vec3) -> (r: Vec3)
    ensures
        r == sum3(*a, *b),
{
    Vec3 { x: fx_plus(a.x, b.x), y: fx_plus(a.y, b.y), z: fx_plus(a.z, b.z) }
}

pub fn cross3_exec(a: &Vec3, b: &Vec3) -> (r: Vec3)
    ensures
        r == cross3(*a, *b),
{
    Vec3 {
        x: fx_minus(fx_times(a.y, b.z), fx_times(a.z, b.y)),
        y: fx_minus(fx_times(a.z, b.x), fx_times(a.x, b.z)),
        z: fx_minus(fx_times(a.x, b.y), fx_times(a.y, b.x)),
    }
}

pub fn quarter_turn_exec(a: &Vec2) -> (r: Vec2)
    ensures
        r == quarter_turn(*a),
{
    Vec2 { x: fx_negate(a.y), y: a.x }
}

/// Two ceiling roots of one number are equal.
pub proof fn lemma_ceil_root_unique(n: int, a: int, b: int)
    requires
        is_ceil_root(n, a),
        is_ceil_root(n, b),
    ensures
        a == b,
{
    if a < b {
        assert(a * a <= (b - 1) * (b - 1)) by (nonlinear_arith)
            requires
                0 <= a <= b - 1,
        ;
    } else if b < a {
        assert(b * b <= (a - 1) * (a - 1)) by (nonlinear_arith)
            requires
                0 <= b <= a - 1,
        ;
    }
}

/// A witness of the ceiling root is the ceiling root.
pub proof fn lemma_ceil_root_is(n: int, s: int)
    requires
        is_ceil_root(n, s),
    ensures
        ceil_root(n) == s,
{
    assert(exists|t: int| is_ceil_root(n, t));
    lemma_ceil_root_unique(n, ceil_root(n), s);
}

/// Ceiling square root of a positive number of at most `2^127`.
fn ceil_root_exec(n: u128) -> (s: u128)
    requires
        0 < n <= 0x8000_0000_0000_0000_0000_0000_0000_0000,
    ensures
        s == ceil_root(n as int),
        1 <= s <= 0x1_0000_0000_0000_0000,
{
    let mut lo: u128 = 0;
    let mut hi: u128 = 0x1_0000_0000_0000_0000;
    assert(n <= hi * hi);
    while hi - lo > 1
        invariant
            lo < hi <= 0x1_0000_0000_0000_0000,
            lo * lo < n,
            n <= hi * hi,
        decreases hi - lo,
    {
        let mid: u128 = lo + (hi - lo) / 2;
        assert(mid * mid < 0x1_0000_0000_0000_0000_0000_0000_0000_0000) by (nonlinear_arith)
            requires
                mid < 0x1_0000_0000_0000_0000,
        ;
        if mid * mid >= n {
            hi = mid;
        } else {
            lo = mid;
        }
    }
    proof {
        lemma_ceil_root_is(n as int, hi as int);
    }
    hi
}

/// Every natural number has a ceiling square root.
pub proof fn lemma_ceil_root_exists(n: int)
    requires
        n >= 0,
    ensures
        is_ceil_root(n, ceil_root(n)),
    decreases n,
{
    if n == 0 {
        assert(is_ceil_root(0, 0));
    } else {
        lemma_ceil_root_exists(n - 1);
        let t = ceil_root(n - 1);
        if n <= t * t {
            if t == 0 {
                assert(t * t == 0) by (nonlinear_arith)
                    requires
                        t == 0,
                ;
            }
            assert(is_ceil_root(n, t));
        } else {
            assert(n <= (t + 1) * (t + 1)) by (nonlinear_arith)
                requires
                    n - 1 <= t * t,
                    t >= 0,
            ;
            assert(is_ceil_root(n, t + 1));
        }
    }
}

/// A quotient rounded toward zero is no longer than the exact one.
proof fn lemma_toward_zero_bound(p: int, d: int)
    requires
        d > 0,
    ensures
        toward_zero(p, d) * toward_zero(p, d) * (d * d) <= p * p,
{
    let q = toward_zero(p, d);
    let a = if p >= 0 { p } else { -p };
    let qa = a / d;
    assert(0 <= qa * d <= a) by (nonlinear_arith)
        requires
            qa == a / d,
            a >= 0,
            d > 0,
    ;
    assert(qa * qa * (d * d) <= a * a) by (nonlinear_arith)
        requires
            0 <= qa * d <= a,
    ;
    assert(q * q == qa * qa) by (nonlinear_arith)
        requires
            q == qa || q == -qa,
    ;
    assert(a * a == p * p) by (nonlinear_arith)
        requires
            a == p || a == -p,
    ;
}

/// Where the disk clamp scales, each component is rounded from `x * limit / s`
/// with `s` above `|limit|`, so it stays within the range of `i64`.
proof fn lemma_scaled_component(x: int, limit: int, s: int)
    requires
        limit * limit < s * s,
        s > 0,
        i64::MIN <= x <= i64::MAX,
    ensures
        toward_zero(x * limit, s) * toward_zero(x * limit, s) * (s * s) <= x * x * (limit
            * limit),
        i64::MIN <= toward_zero(x * limit, s) <= i64::MAX,
{
    let q = toward_zero(x * limit, s);
    lemma_toward_zero_bound(x * limit, s);
    assert((x * limit) * (x * limit) == x * x * (limit * limit)) by (nonlinear_arith);
    assert(x * x * (limit * limit) <= x * x * (s * s)) by (nonlinear_arith)
        requires
            limit * limit < s * s,
    ;
    assert(q * q <= x * x) by (nonlinear_arith)
        requires
            q * q * (s * s) <= x * x * (s * s),
            s > 0,
    ;
    if x == i64::MIN {
        assert(q * q * (s * s) < x * x * (s * s)) by (nonlinear_arith)
            requires
                q * q * (s * s) <= x * x * (limit * limit),
                limit * limit < s * s,
                x != 0,
        ;
        assert(q * q < x * x) by (nonlinear_arith)
            requires
                q * q * (s * s) < x * x * (s * s),
        ;
    }
    assert(i64::MIN <= q <= i64::MAX) by (nonlinear_arith)
        requires
            q * q <= x * x,
            x == i64::MIN ==> q * q < x * x,
            i64::MIN <= x <= i64::MAX,
    ;
}

/// The disk clamp never leaves the disk of radius `limit`.
pub proof fn lemma_disk_clamp_within(v: Vec2, limit: i64)
    requires
        limit >= 0,
    ensures
        norm_sq(disk_clamp(v, limit).x as int, disk_clamp(v, limit).y as int) <= limit * limit,
{
    let n = norm_sq(v.x as int, v.y as int);
    if n > limit * limit {
        lemma_ceil_root_exists(n);
        let s = ceil_root(n);
        let l = limit as int;
        assert(l * l < s * s);
        if s == 0 {
            assert(s * s == 0) by (nonlinear_arith)
                requires
                    s == 0,
            ;
        }
        lemma_scaled_component(v.x as int, l, s);
        lemma_scaled_component(v.y as int, l, s);
        let qx = toward_zero(v.x * l, s);
        let qy = toward_zero(v.y * l, s);
        assert((qx * qx + qy * qy) * (s * s) <= n * (l * l)) by (nonlinear_arith)
            requires
                qx * qx * (s * s) <= v.x * v.x * (l * l),
                qy * qy * (s * s) <= v.y * v.y * (l * l),
                n == v.x * v.x + v.y * v.y,
        ;
        assert(n * (l * l) <= (s * s) * (l * l)) by (nonlinear_arith)
            requires
                n <= s * s,
        ;
        assert(qx * qx + qy * qy <= l * l) by (nonlinear_arith)
            requires
                (qx * qx + qy * qy) * (s * s) <= (s * s) * (l * l),
                s > 0,
        ;
        let r = disk_clamp(v, limit);
        assert(r.x as int == qx && r.y as int == qy);
    }
}

/// The length of `v` capped to `limit` (see [`disk_clamp`]).
pub fn disk_clamp_exec(v: &Vec2, limit: i64) -> (r: Vec2)
    ensures
        r == disk_clamp(*v, limit),
{
    let x = v.x as i128;
    let y = v.y as i128;
    let l = limit as i128;
    proof {
        assert(0 <= x * x <= 0x4000_0000_0000_0000_0000_0000_0000_0000) by (nonlinear_arith)
            requires
                -0x8000_0000_0000_0000 <= x <= 0x7fff_ffff_ffff_ffff,
        ;
        assert(0 <= y * y <= 0x4000_0000_0000_0000_0000_0000_0000_0000) by (nonlinear_arith)
            requires
                -0x8000_0000_0000_0000 <= y <= 0x7fff_ffff_ffff_ffff,
        ;
        assert(0 <= l * l <= 0x4000_0000_0000_0000_0000_0000_0000_0000) by (nonlinear_arith)
            requires
                -0x8000_0000_0000_0000 <= l <= 0x7fff_ffff_ffff_ffff,
        ;
    }
    let n: u128 = (x * x) as u128 + (y * y) as u128;
    let ll: u128 = (l * l) as u128;
    if n <= ll {
        *v
    } else {
        let s = ceil_root_exec(n);
        let si = s as i128;
        proof {
            lemma_ceil_root_exists(n as int);
            assert(l * l < si * si);
            lemma_scaled_component(x as int, l as int, si as int);
            lemma_scaled_component(y as int, l as int, si as int);
            assert(-0x4000_0000_0000_0000_0000_0000_0000_0000 <= x * l
                <= 0x4000_0000_0000_0000_0000_0000_0000_0000) by (nonlinear_arith)
                requires
                    -0x8000_0000_0000_0000 <= x <= 0x7fff_ffff_ffff_ffff,
                    -0x8000_0000_0000_0000 <= l <= 0x7fff_ffff_ffff_ffff,
            ;
            assert(-0x4000_0000_0000_0000_0000_0000_0000_0000 <= y * l
                <= 0x4000_0000_0000_0000_0000_0000_0000_0000) by (nonlinear_arith)
                requires
                    -0x8000_0000_0000_0000 <= y <= 0x7fff_ffff_ffff_ffff,
                    -0x8000_0000_0000_0000 <= l <= 0x7fff_ffff_ffff_ffff,
            ;
        }
        let px = x * l;
        let py = y * l;
        let qx: i128 = if px >= 0 {
            px / si
        } else {
            -((-px) / si)
        };
        let qy: i128 = if py >= 0 {
            py / si
        } else {
            -((-py) / si)
        };
        proof {
            assert(qx == toward_zero(x * l, si as int));
            assert(qy == toward_zero(y * l, si as int));
        }
        Vec2 { x: qx as i64, y: qy as i64 }
    }
}

} // verus!
