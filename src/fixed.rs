//! Signed fixed-point scalars with sixteen fractional bits, held in an `i64`.
//! Every operation saturates at the bounds of `i64`.
use vstd::prelude::*;
use vstd::arithmetic::div_mod::{lemma_div_is_ordered, lemma_div_multiples_vanish};

verus! {

/// The raw value that stands for the number one.
pub const ONE: i64 = 65536;

/// Saturation of an exact value to the range of `i64`.
pub open spec fn clip(x: int) -> i64 {
    if x > i64::MAX {
        i64::MAX
    } else if x < i64::MIN {
        i64::MIN
    } else {
        x as i64
    }
}

/// Division of a raw product by `ONE`, rounded toward zero.
pub open spec fn rescale(p: int) -> int {
    if p >= 0 {
        p / (ONE as int)
    } else {
        -((-p) / (ONE as int))
    }
}

pub open spec fn plus(a: i64, b: i64) -> i64 {
    clip(a + b)
}

pub open spec fn minus(a: i64, b: i64) -> i64 {
    clip(a - b)
}

pub open spec fn negate(a: i64) -> i64 {
    clip(-a)
}

/// Fixed-point product: the exact product of the raw values, rescaled and saturated.
pub open spec fn times(a: i64, b: i64) -> i64 {
    clip(rescale(a * b))
}

pub open spec fn larger(a: i64, b: i64) -> i64 {
    if a >= b {
        a
    } else {
        b
    }
}

/// `x` held inside `[-limit, limit]`: first raised to `-limit`, then lowered to `limit`.
pub open spec fn box_clamp(x: i64, limit: i64) -> i64 {
    let lo = negate(limit);
    let raised = if x < lo {
        lo
    } else {
        x
    };
    if raised > limit {
        limit
    } else {
        raised
    }
}

fn clip_wide(x: i128) -> (r: i64)
    ensures
        r == clip(x as int),
{
    if x > i64::MAX as i128 {
        i64::MAX
    } else if x < i64::MIN as i128 {
        i64::MIN
    } else {
        x as i64
    }
}

/// Saturating sum.
pub fn fx_plus(a: i64, b: i64) -> (r: i64)
    ensures
        r == plus(a, b),
{
    clip_wide(a as i128 + b as i128)
}

/// Saturating difference.
pub fn fx_minus(a: i64, b: i64) -> (r: i64)
    ensures
        r == minus(a, b),
{
    clip_wide(a as i128 - b as i128)
}

/// Saturating negation.
pub fn fx_negate(a: i64) -> (r: i64)
    ensures
        r == negate(a),
{
    clip_wide(-(a as i128))
}

/// Saturating fixed-point product.
pub fn fx_times(a: i64, b: i64) -> (r: i64)
    ensures
        r == times(a, b),
{
    let wa = a as i128;
    let wb = b as i128;
    proof {
        assert(-0x8000_0000_0000_0000 <= wa <= 0x7fff_ffff_ffff_ffff);
        assert(-0x4000_0000_0000_0000_0000_0000_0000_0000 <= wa * wb
            <= 0x4000_0000_0000_0000_0000_0000_0000_0000) by (nonlinear_arith)
            requires
                -0x8000_0000_0000_0000 <= wa <= 0x7fff_ffff_ffff_ffff,
                -0x8000_0000_0000_0000 <= wb <= 0x7fff_ffff_ffff_ffff,
        ;
    }
    let p: i128 = wa * wb;
    let q: i128 = if p >= 0 {
        p / (ONE as i128)
    } else {
        -((-p) / (ONE as i128))
    };
    clip_wide(q)
}

/// The larger of two scalars.
pub fn fx_larger(a: i64, b: i64) -> (r: i64)
    ensures
        r == larger(a, b),
{
    if a >= b {
        a
    } else {
        b
    }
}

/// `x` held inside `[-limit, limit]`.
pub fn fx_box_clamp(x: i64, limit: i64) -> (r: i64)
    ensures
        r == box_clamp(x, limit),
        limit >= 0 ==> -limit <= r <= limit,
        limit >= 0 && -limit <= x <= limit ==> r == x,
{
    let lo = fx_negate(limit);
    let raised = if x < lo {
        lo
    } else {
        x
    };
    if raised > limit {
        limit
    } else {
        raised
    }
}

/// A product of non-negative scalars is non-negative.
pub proof fn lemma_times_nonnegative(a: i64, b: i64)
    requires
        a >= 0,
        b >= 0,
    ensures
        times(a, b) >= 0,
{
    assert(a * b >= 0) by (nonlinear_arith)
        requires
            a >= 0,
            b >= 0,
    ;
}

/// Multiplying by one, or by minus one, is exact.
pub proof fn lemma_times_unit(a: i64)
    ensures
        times(ONE, a) == a,
        a > i64::MIN ==> times(-ONE as i64, a) == -a,
        times(0, a) == 0,
{
    let one = ONE as int;
    assert(0 * a == 0);
    if a >= 0 {
        lemma_div_multiples_vanish(a as int, one);
        assert((-one) * a == -(one * a));
    } else {
        lemma_div_multiples_vanish(-a, one);
        assert(-(one * a) == one * (-a));
        assert((-one) * a == one * (-a));
    }
}

/// A scalar times a factor in `[0, 1]` lies between zero and that scalar.
pub proof fn lemma_times_fraction(r: i64, a: i64)
    requires
        0 <= r <= ONE,
    ensures
        a >= 0 ==> 0 <= times(r, a) <= a,
        a <= 0 ==> a <= times(r, a) <= 0,
{
    let one = ONE as int;
    let m: int = if a >= 0 { a as int } else { -a };
    assert(0 <= r * m <= one * m) by (nonlinear_arith)
        requires
            0 <= r <= one,
            m >= 0,
    ;
    lemma_div_is_ordered(r * m, one * m, one);
    lemma_div_is_ordered(0, r * m, one);
    lemma_div_multiples_vanish(m, one);
    if a < 0 {
        assert(r * a == -(r * m)) by (nonlinear_arith)
            requires
                m == -a,
        ;
    }
}

} // verus!
