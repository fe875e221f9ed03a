//! Contact constraints against ground in two dimensions: angular quantities are
//! scalars, and friction acts along the one tangent direction with a box clamp.
use vstd::prelude::*;
use crate::fixed::{
    box_clamp, lemma_times_fraction, lemma_times_unit, ONE,
    fx_box_clamp, fx_larger, fx_minus, fx_negate, fx_plus, fx_times, larger, minus,
    negate, plus, times,
};
use crate::math::{
    dot2, dot2_exec, quarter_turn, quarter_turn_exec, scaled2, scaled2_exec, sum2, sum2_exec, Vec2,
};

verus! {

/// Velocity correction of the dynamic body, shared by every constraint that acts on it.
#[derive(Clone, Copy, Debug, PartialEq, Eq)]
pub struct DeltaVel {
    pub linear: Vec2,
    pub angular: i64,
}

/// Friction state of one contact point.
#[derive(Clone, Copy, Debug, PartialEq, Eq)]
pub struct VelocityGroundConstraintTangentPart {
    pub gcross2: i64,
    pub rhs: i64,
    pub impulse: i64,
    pub r: i64,
}

/// Non-penetration state of one contact point.
#[derive(Clone, Copy, Debug, PartialEq, Eq)]
pub struct VelocityGroundConstraintNormalPart {
    pub gcross2: i64,
    pub rhs: i64,
    pub rhs_wo_bias: i64,
    pub impulse: i64,
    pub r: i64,
}

/// Complete constraint state of one contact point.
#[derive(Clone, Copy, Debug, PartialEq, Eq)]
pub struct VelocityGroundConstraintElement {
    pub normal_part: VelocityGroundConstraintNormalPart,
    pub tangent_part: VelocityGroundConstraintTangentPart,
}

/// Velocity change of the body for an impulse change `dlambda` along `dir`
/// with angular term `gcross2`.
pub open spec fn apply_impulse(v: DeltaVel, dir: Vec2, gcross2: i64, im2: i64, dlambda: i64) -> DeltaVel {
    DeltaVel {
        linear: sum2(v.linear, scaled2(dir, times(negate(im2), dlambda))),
        angular: plus(v.angular, times(gcross2, dlambda)),
    }
}

/// Constraint violation rate along `dir`: `-dir . linear + gcross2 * angular + rhs`.
pub open spec fn violation(dir: Vec2, gcross2: i64, rhs: i64, v: DeltaVel) -> i64 {
    plus(plus(negate(dot2(dir, v.linear)), times(gcross2, v.angular)), rhs)
}

pub open spec fn normal_violation(p: VelocityGroundConstraintNormalPart, dir: Vec2, v: DeltaVel) -> i64 {
    violation(dir, p.gcross2, p.rhs, v)
}

pub open spec fn tangent_violation(p: VelocityGroundConstraintTangentPart, tangent: Vec2, v: DeltaVel) -> i64 {
    violation(tangent, p.gcross2, p.rhs, v)
}

/// One projected Gauss-Seidel step on the normal part: the impulse moves by
/// `-r * violation` and is kept non-negative; the body's velocity follows.
pub open spec fn normal_step(
    p: VelocityGroundConstraintNormalPart,
    dir: Vec2,
    im2: i64,
    v: DeltaVel,
) -> (VelocityGroundConstraintNormalPart, DeltaVel) {
    let new_impulse = larger(minus(p.impulse, times(p.r, normal_violation(p, dir, v))), 0);
    let dlambda = minus(new_impulse, p.impulse);
    (
        VelocityGroundConstraintNormalPart { impulse: new_impulse, ..p },
        apply_impulse(v, dir, p.gcross2, im2, dlambda),
    )
}

/// One projected Gauss-Seidel step on the tangent part: the impulse moves by
/// `-r * violation` and is kept inside `[-limit, limit]`; the body's velocity follows.
pub open spec fn tangent_step(
    p: VelocityGroundConstraintTangentPart,
    tangent: Vec2,
    im2: i64,
    limit: i64,
    v: DeltaVel,
) -> (VelocityGroundConstraintTangentPart, DeltaVel) {
    let new_impulse = box_clamp(minus(p.impulse, times(p.r, tangent_violation(p, tangent, v))), limit);
    let dlambda = minus(new_impulse, p.impulse);
    (
        VelocityGroundConstraintTangentPart { impulse: new_impulse, ..p },
        apply_impulse(v, tangent, p.gcross2, im2, dlambda),
    )
}

/// Normal parts of `es` solved in order, each against the velocity that the
/// ones before it left.
pub open spec fn normal_pass(
    es: Seq<VelocityGroundConstraintElement>,
    dir: Vec2,
    im2: i64,
    v: DeltaVel,
) -> (Seq<VelocityGroundConstraintElement>, DeltaVel)
    decreases es.len(),
{
    if es.len() == 0 {
        (es, v)
    } else {
        let before = normal_pass(es.drop_last(), dir, im2, v);
        let e = es.last();
        let step = normal_step(e.normal_part, dir, im2, before.1);
        (before.0.push(VelocityGroundConstraintElement { normal_part: step.0, ..e }), step.1)
    }
}

/// Friction limit of an element: the friction coefficient times its normal impulse.
pub open spec fn friction_limit(e: VelocityGroundConstraintElement, friction: i64) -> i64 {
    times(friction, e.normal_part.impulse)
}

/// Tangent parts of `es` solved in order, each against the velocity that the
/// ones before it left and with its own friction limit.
pub open spec fn friction_pass(
    es: Seq<VelocityGroundConstraintElement>,
    tangent: Vec2,
    im2: i64,
    friction: i64,
    v: DeltaVel,
) -> (Seq<VelocityGroundConstraintElement>, DeltaVel)
    decreases es.len(),
{
    if es.len() == 0 {
        (es, v)
    } else {
        let before = friction_pass(es.drop_last(), tangent, im2, friction, v);
        let e = es.last();
        let step = tangent_step(e.tangent_part, tangent, im2, friction_limit(e, friction), before.1);
        (before.0.push(VelocityGroundConstraintElement { tangent_part: step.0, ..e }), step.1)
    }
}

/// One sweep over a group: the normal pass if asked for, then the friction pass
/// along the quarter turn of `dir` if asked for.
pub open spec fn group_sweep(
    es: Seq<VelocityGroundConstraintElement>,
    dir: Vec2,
    im2: i64,
    friction: i64,
    v: DeltaVel,
    solve_normal: bool,
    solve_friction: bool,
) -> (Seq<VelocityGroundConstraintElement>, DeltaVel) {
    let after_normal = if solve_normal {
        normal_pass(es, dir, im2, v)
    } else {
        (es, v)
    };
    if solve_friction {
        friction_pass(after_normal.0, quarter_turn(dir), im2, friction, after_normal.1)
    } else {
        after_normal
    }
}

fn apply_impulse_exec(v: &mut DeltaVel, dir: &Vec2, gcross2: i64, im2: i64, dlambda: i64)
    ensures
        *final(v) == apply_impulse(*old(v), *dir, gcross2, im2, dlambda),
{
    let lin = scaled2_exec(dir, fx_times(fx_negate(im2), dlambda));
    v.linear = sum2_exec(&v.linear, &lin);
    v.angular = fx_plus(v.angular, fx_times(gcross2, dlambda));
}

fn violation_exec(dir: &Vec2, gcross2: i64, rhs: i64, v: &DeltaVel) -> (r: i64)
    ensures
        r == violation(*dir, gcross2, rhs, *v),
{
    fx_plus(fx_plus(fx_negate(dot2_exec(dir, &v.linear)), fx_times(gcross2, v.angular)), rhs)
}

impl VelocityGroundConstraintTangentPart {
    fn zero() -> (r: Self)
        ensures
            r == (VelocityGroundConstraintTangentPart { gcross2: 0, rhs: 0, impulse: 0, r: 0 }),
    {
        VelocityGroundConstraintTangentPart { gcross2: 0, rhs: 0, impulse: 0, r: 0 }
    }

    /// Solves the friction constraint along `tangent` once, with the impulse
    /// held inside `[-limit, limit]`, and applies the change to `mj_lambda2`.
    pub fn solve(&mut self, tangent: &Vec2, im2: i64, limit: i64, mj_lambda2: &mut DeltaVel)
        ensures
            (*final(self), *final(mj_lambda2)) == tangent_step(
                *old(self),
                *tangent,
                im2,
                limit,
                *old(mj_lambda2),
            ),
            limit >= 0 ==> -limit <= final(self).impulse <= limit,
    {
        let dimpulse = violation_exec(tangent, self.gcross2, self.rhs, mj_lambda2);
        let new_impulse = fx_box_clamp(fx_minus(self.impulse, fx_times(self.r, dimpulse)), limit);
        let dlambda = fx_minus(new_impulse, self.impulse);
        self.impulse = new_impulse;
        apply_impulse_exec(mj_lambda2, tangent, self.gcross2, im2, dlambda);
    }
}

impl VelocityGroundConstraintNormalPart {
    fn zero() -> (r: Self)
        ensures
            r == (VelocityGroundConstraintNormalPart {
                gcross2: 0,
                rhs: 0,
                rhs_wo_bias: 0,
                impulse: 0,
                r: 0,
            }),
    {
        VelocityGroundConstraintNormalPart { gcross2: 0, rhs: 0, rhs_wo_bias: 0, impulse: 0, r: 0 }
    }

    /// Solves the non-penetration constraint along `dir` once, with the impulse
    /// kept non-negative, and applies the change to `mj_lambda2`.
    pub fn solve(&mut self, dir: &Vec2, im2: i64, mj_lambda2: &mut DeltaVel)
        ensures
            (*final(self), *final(mj_lambda2)) == normal_step(*old(self), *dir, im2, *old(mj_lambda2)),
            final(self).impulse >= 0,
    {
        let dimpulse = violation_exec(dir, self.gcross2, self.rhs, mj_lambda2);
        let new_impulse = fx_larger(fx_minus(self.impulse, fx_times(self.r, dimpulse)), 0);
        let dlambda = fx_minus(new_impulse, self.impulse);
        self.impulse = new_impulse;
        apply_impulse_exec(mj_lambda2, dir, self.gcross2, im2, dlambda);
    }
}

impl VelocityGroundConstraintElement {
    /// A fresh, unsolved element: every field zero.
    pub fn zero() -> (r: Self)
        ensures
            r.normal_part == (VelocityGroundConstraintNormalPart {
                gcross2: 0,
                rhs: 0,
                rhs_wo_bias: 0,
                impulse: 0,
                r: 0,
            }),
            r.tangent_part == (VelocityGroundConstraintTangentPart {
                gcross2: 0,
                rhs: 0,
                impulse: 0,
                r: 0,
            }),
    {
        VelocityGroundConstraintElement {
            normal_part: VelocityGroundConstraintNormalPart::zero(),
            tangent_part: VelocityGroundConstraintTangentPart::zero(),
        }
    }

    /// One Gauss-Seidel sweep over `elements`, in order, all acting on the one
    /// body whose velocity correction is `mj_lambda2`: first the normal parts
    /// along `dir1` if `solve_normal`, then the tangent parts along the quarter
    /// turn of `dir1` if `solve_friction`, each with the limit `limit` times its
    /// normal impulse.
    pub fn solve_group(
        elements: &mut [Self],
        dir1: &Vec2,
        im2: i64,
        limit: i64,
        mj_lambda2: &mut DeltaVel,
        solve_normal: bool,
        solve_friction: bool,
    )
        ensures
            (final(elements)@, *final(mj_lambda2)) == group_sweep(
                old(elements)@,
                *dir1,
                im2,
                limit,
                *old(mj_lambda2),
                solve_normal,
                solve_friction,
            ),
            solve_normal ==> forall|i: int|
                0 <= i < final(elements)@.len() ==> final(elements)@[i].normal_part.impulse >= 0,
            limit >= 0 && solve_friction ==> forall|i: int|
                0 <= i < final(elements)@.len() && final(elements)@[i].normal_part.impulse >= 0
                    ==> within_cone(final(elements)@[i], limit),
    {
        let ghost es0 = elements@;
        let ghost v0 = *mj_lambda2;
        let n = elements.len();
        if solve_normal {
            let mut i: usize = 0;
            while i < n
                invariant
                    n == elements@.len(),
                    n == es0.len(),
                    i <= n,
                    elements@.subrange(0, i as int) == normal_pass(
                        es0.subrange(0, i as int),
                        *dir1,
                        im2,
                        v0,
                    ).0,
                    *mj_lambda2 == normal_pass(es0.subrange(0, i as int), *dir1, im2, v0).1,
                    elements@.subrange(i as int, n as int) == es0.subrange(i as int, n as int),
                decreases n - i,
            {
                let ghost before = elements@;
                proof {
                    assert(es0.subrange(0, i + 1).drop_last() == es0.subrange(0, i as int));
                    assert(es0.subrange(0, i + 1).last() == es0[i as int]);
                    assert(before[i as int] == before.subrange(i as int, n as int)[0]);
                }
                elements[i].normal_part.solve(dir1, im2, mj_lambda2);
                proof {
                    assert(elements@.subrange(0, i + 1) == before.subrange(0, i as int).push(
                        elements@[i as int],
                    ));
                    assert(elements@.subrange(i + 1, n as int) == before.subrange(
                        i + 1,
                        n as int,
                    ));
                    assert(before.subrange(i + 1, n as int) == before.subrange(
                        i as int,
                        n as int,
                    ).subrange(1, n - i));
                    assert(es0.subrange(i + 1, n as int) == es0.subrange(
                        i as int,
                        n as int,
                    ).subrange(1, n - i));
                }
                i = i + 1;
            }
            proof {
                assert(es0.subrange(0, n as int) == es0);
                assert(elements@.subrange(0, n as int) == elements@);
                lemma_normal_pass_nonnegative(es0, *dir1, im2, v0);
            }
        }
        let ghost es1 = elements@;
        let ghost v1 = *mj_lambda2;
        if solve_friction {
            let tangent = quarter_turn_exec(dir1);
            let mut i: usize = 0;
            while i < n
                invariant
                    n == elements@.len(),
                    n == es1.len(),
                    i <= n,
                    tangent == quarter_turn(*dir1),
                    elements@.subrange(0, i as int) == friction_pass(
                        es1.subrange(0, i as int),
                        tangent,
                        im2,
                        limit,
                        v1,
                    ).0,
                    *mj_lambda2 == friction_pass(es1.subrange(0, i as int), tangent, im2, limit, v1).1,
                    elements@.subrange(i as int, n as int) == es1.subrange(i as int, n as int),
                decreases n - i,
            {
                let ghost before = elements@;
                proof {
                    assert(es1.subrange(0, i + 1).drop_last() == es1.subrange(0, i as int));
                    assert(es1.subrange(0, i + 1).last() == es1[i as int]);
                    assert(before[i as int] == before.subrange(i as int, n as int)[0]);
                }
                let element_limit = fx_times(limit, elements[i].normal_part.impulse);
                elements[i].tangent_part.solve(&tangent, im2, element_limit, mj_lambda2);
                proof {
                    assert(elements@.subrange(0, i + 1) == before.subrange(0, i as int).push(
                        elements@[i as int],
                    ));
                    assert(elements@.subrange(i + 1, n as int) == before.subrange(
                        i + 1,
                        n as int,
                    ));
                    assert(before.subrange(i + 1, n as int) == before.subrange(
                        i as int,
                        n as int,
                    ).subrange(1, n - i));
                    assert(es1.subrange(i + 1, n as int) == es1.subrange(
                        i as int,
                        n as int,
                    ).subrange(1, n - i));
                }
                i = i + 1;
            }
            proof {
                assert(es1.subrange(0, n as int) == es1);
                assert(elements@.subrange(0, n as int) == elements@);
                lemma_friction_pass_within_cone(es1, tangent, im2, limit, v1);
            }
        }
    }
}

/// The tangent impulse of `e` lies within its friction cone: its magnitude is at
/// most `friction` times the normal impulse.
pub open spec fn within_cone(e: VelocityGroundConstraintElement, friction: i64) -> bool {
    -friction_limit(e, friction) <= e.tangent_part.impulse <= friction_limit(e, friction)
}

/// After a normal pass every normal impulse is non-negative, whatever the
/// right-hand sides, and the pass keeps the length of the group.
pub proof fn lemma_normal_pass_nonnegative(
    es: Seq<VelocityGroundConstraintElement>,
    dir: Vec2,
    im2: i64,
    v: DeltaVel,
)
    ensures
        normal_pass(es, dir, im2, v).0.len() == es.len(),
        forall|i: int|
            0 <= i < es.len() ==> (#[trigger] normal_pass(es, dir, im2, v).0[i]).normal_part.impulse
                >= 0,
        forall|i: int|
            0 <= i < es.len() ==> (#[trigger] normal_pass(es, dir, im2, v).0[i]).tangent_part
                == es[i].tangent_part,
    decreases es.len(),
{
    if es.len() > 0 {
        lemma_normal_pass_nonnegative(es.drop_last(), dir, im2, v);
    }
}

/// After a friction pass with a non-negative friction coefficient, every
/// element whose normal impulse is non-negative has its tangent impulse within
/// the friction cone; the pass leaves the normal parts as they were.
pub proof fn lemma_friction_pass_within_cone(
    es: Seq<VelocityGroundConstraintElement>,
    tangent: Vec2,
    im2: i64,
    friction: i64,
    v: DeltaVel,
)
    ensures
        friction_pass(es, tangent, im2, friction, v).0.len() == es.len(),
        forall|i: int|
            0 <= i < es.len() ==> (#[trigger] friction_pass(es, tangent, im2, friction, v).0[i]).normal_part
                == es[i].normal_part,
        friction >= 0 ==> forall|i: int|
            0 <= i < es.len() && es[i].normal_part.impulse >= 0 ==> within_cone(
                #[trigger] friction_pass(es, tangent, im2, friction, v).0[i],
                friction,
            ),
    decreases es.len(),
{
    if es.len() > 0 {
        lemma_friction_pass_within_cone(es.drop_last(), tangent, im2, friction, v);
        let e = es.last();
        if friction >= 0 && e.normal_part.impulse >= 0 {
            crate::fixed::lemma_times_nonnegative(friction, e.normal_part.impulse);
        }
    }
}

/// The normal constraint is satisfied at velocity `v`: no violation, and an
/// impulse that the clamp keeps.
pub open spec fn normal_at_rest(p: VelocityGroundConstraintNormalPart, dir: Vec2, v: DeltaVel) -> bool {
    normal_violation(p, dir, v) == 0 && p.impulse >= 0
}

/// The friction constraint is satisfied at velocity `v`: no violation, and an
/// impulse inside the friction cone.
pub open spec fn tangent_at_rest(
    e: VelocityGroundConstraintElement,
    tangent: Vec2,
    friction: i64,
    v: DeltaVel,
) -> bool {
    tangent_violation(e.tangent_part, tangent, v) == 0 && within_cone(e, friction)
}

/// Every constraint of the group is satisfied at velocity `v`.
pub open spec fn group_at_rest(
    es: Seq<VelocityGroundConstraintElement>,
    dir: Vec2,
    friction: i64,
    v: DeltaVel,
) -> bool {
    forall|i: int|
        0 <= i < es.len() ==> normal_at_rest(#[trigger] es[i].normal_part, dir, v) && tangent_at_rest(
            es[i],
            quarter_turn(dir),
            friction,
            v,
        )
}

proof fn lemma_apply_nothing(v: DeltaVel, dir: Vec2, gcross2: i64, im2: i64)
    ensures
        apply_impulse(v, dir, gcross2, im2, 0) == v,
{
    assert(negate(im2) * 0 == 0);
    assert(dir.x * 0 == 0);
    assert(dir.y * 0 == 0);
    assert(gcross2 * 0 == 0);
}

proof fn lemma_normal_pass_at_rest(
    es: Seq<VelocityGroundConstraintElement>,
    dir: Vec2,
    im2: i64,
    v: DeltaVel,
)
    requires
        forall|i: int| 0 <= i < es.len() ==> normal_at_rest(#[trigger] es[i].normal_part, dir, v),
    ensures
        normal_pass(es, dir, im2, v) == (es, v),
    decreases es.len(),
{
    if es.len() > 0 {
        let rest = es.drop_last();
        assert forall|i: int| 0 <= i < rest.len() implies normal_at_rest(
            #[trigger] rest[i].normal_part,
            dir,
            v,
        ) by {
            assert(rest[i] == es[i]);
        }
        lemma_normal_pass_at_rest(rest, dir, im2, v);
        let e = es.last();
        assert(normal_at_rest(es[es.len() - 1].normal_part, dir, v));
        assert(e.normal_part.r * 0 == 0);
        lemma_apply_nothing(v, dir, e.normal_part.gcross2, im2);
        assert(rest.push(e) == es);
    }
}

proof fn lemma_friction_pass_at_rest(
    es: Seq<VelocityGroundConstraintElement>,
    tangent: Vec2,
    im2: i64,
    friction: i64,
    v: DeltaVel,
)
    requires
        forall|i: int| 0 <= i < es.len() ==> tangent_at_rest(#[trigger] es[i], tangent, friction, v),
    ensures
        friction_pass(es, tangent, im2, friction, v) == (es, v),
    decreases es.len(),
{
    if es.len() > 0 {
        let rest = es.drop_last();
        assert forall|i: int| 0 <= i < rest.len() implies tangent_at_rest(
            #[trigger] rest[i],
            tangent,
            friction,
            v,
        ) by {
            assert(rest[i] == es[i]);
        }
        lemma_friction_pass_at_rest(rest, tangent, im2, friction, v);
        let e = es.last();
        assert(tangent_at_rest(es[es.len() - 1], tangent, friction, v));
        assert(e.tangent_part.r * 0 == 0);
        lemma_apply_nothing(v, tangent, e.tangent_part.gcross2, im2);
        assert(rest.push(e) == es);
    }
}

/// A group whose constraints are all satisfied is a fixed point of the sweep:
/// a further `solve_group` changes neither an impulse nor the velocity.
pub proof fn lemma_sweep_at_rest(
    es: Seq<VelocityGroundConstraintElement>,
    dir: Vec2,
    im2: i64,
    friction: i64,
    v: DeltaVel,
    solve_normal: bool,
    solve_friction: bool,
)
    requires
        group_at_rest(es, dir, friction, v),
    ensures
        group_sweep(es, dir, im2, friction, v, solve_normal, solve_friction) == (es, v),
{
    if solve_normal {
        lemma_normal_pass_at_rest(es, dir, im2, v);
    }
    if solve_friction {
        assert forall|i: int| 0 <= i < es.len() implies tangent_at_rest(
            #[trigger] es[i],
            quarter_turn(dir),
            friction,
            v,
        ) by {
            assert(normal_at_rest(es[i].normal_part, dir, v));
        }
        lemma_friction_pass_at_rest(es, quarter_turn(dir), im2, friction, v);
    }
}

/// For a contact whose normal is the unit `y` axis, with no angular coupling,
/// unit inverse mass and a compliance `r` in `[0, 1]`, a normal step whose
/// impulse is not clamped at zero moves the violation toward zero without
/// passing it: its magnitude does not grow and its sign does not flip. The
/// bounds on the inputs keep every intermediate value clear of saturation.
pub proof fn lemma_normal_step_shrinks_violation(
    p: VelocityGroundConstraintNormalPart,
    v: DeltaVel,
)
    requires
        p.gcross2 == 0,
        0 <= p.r <= ONE,
        -0x1000_0000_0000_0000 <= v.linear.y <= 0x1000_0000_0000_0000,
        -0x1000_0000_0000_0000 <= p.rhs <= 0x1000_0000_0000_0000,
        -0x1000_0000_0000_0000 <= p.impulse <= 0x1000_0000_0000_0000,
        minus(p.impulse, times(p.r, normal_violation(p, Vec2 { x: 0, y: ONE }, v))) >= 0,
    ensures
        ({
            let dir = Vec2 { x: 0, y: ONE };
            let before = normal_violation(p, dir, v);
            let step = normal_step(p, dir, ONE, v);
            let after = normal_violation(step.0, dir, step.1);
            &&& before >= 0 ==> 0 <= after <= before
            &&& before <= 0 ==> before <= after <= 0
        }),
{
    let dir = Vec2 { x: 0, y: ONE };
    lemma_times_unit(v.linear.x);
    lemma_times_unit(v.linear.y);
    lemma_times_unit(v.angular);
    let before = normal_violation(p, dir, v);
    assert(before == p.rhs - v.linear.y);
    let t = times(p.r, before);
    lemma_times_fraction(p.r, before);
    let dlambda = minus(minus(p.impulse, t), p.impulse);
    assert(dlambda == -t);
    lemma_times_unit(dlambda);
    assert(negate(ONE) == -ONE);
    let step = normal_step(p, dir, ONE, v);
    lemma_times_unit(step.1.linear.x);
    lemma_times_unit(step.1.linear.y);
    lemma_times_unit(step.1.angular);
    lemma_times_unit(-dlambda as i64);
    assert(step.1.linear.y == v.linear.y - dlambda);
}

} // verus!
