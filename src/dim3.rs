//! Contact constraints against ground in three dimensions: angular quantities
//! are vectors, and friction acts in the tangent plane with a disk clamp.
use vstd::prelude::*;
use vstd::arithmetic::div_mod::lemma_div_multiples_vanish;
use crate::fixed::{
    box_clamp, fx_larger, fx_minus, fx_negate, fx_plus, fx_times, larger, minus, negate, plus,
    times,
};
use crate::math::{
    ceil_root, cross3, cross3_exec, disk_clamp, disk_clamp_exec, dot3, dot3_exec, is_ceil_root,
    lemma_ceil_root_is, lemma_disk_clamp_within, norm_sq, scaled3, scaled3_exec, sum3, sum3_exec,
    toward_zero, Vec2, Vec3,
};

verus! {

/// Velocity correction of the dynamic body, shared by every constraint that acts on it.
#[derive(Clone, Copy, Debug, PartialEq, Eq)]
pub struct DeltaVel {
    pub linear: Vec3,
    pub angular: Vec3,
}

/// Friction state of one contact point, one entry per tangent axis.
#[derive(Clone, Copy, Debug, PartialEq, Eq)]
pub struct VelocityGroundConstraintTangentPart {
    pub gcross2: [Vec3; 2],
    pub rhs: [i64; 2],
    pub impulse: Vec2,
    pub r: [i64; 2],
}

/// Non-penetration state of one contact point.
#[derive(Clone, Copy, Debug, PartialEq, Eq)]
pub struct VelocityGroundConstraintNormalPart {
    pub gcross2: Vec3,
    pub rhs: i64,
    pub rhs_wo_bias: i64,
    pub impulse: i64,
    pub r: i64,
}

/// Complete constraint state of one contact point.
#[derive(Clone, Copy, Debug, PartialEq, Eq)]
pub struct VelocityGroundConstraintElement {
    pub normal_part: VelocityGroundConstraintNormalPart,
    pub tangent_part: VelocityGroundConstraintTangentPart,
}

/// Linear velocity change for an impulse change `dlambda` along `dir`.
pub open spec fn linear_change(dir: Vec3, im2: i64, dlambda: i64) -> Vec3 {
    scaled3(dir, times(negate(im2), dlambda))
}

/// Constraint violation rate along `dir`: `-dir . linear + gcross2 . angular + rhs`.
pub open spec fn violation(dir: Vec3, gcross2: Vec3, rhs: i64, v: DeltaVel) -> i64 {
    plus(plus(negate(dot3(dir, v.linear)), dot3(gcross2, v.angular)), rhs)
}

pub open spec fn normal_violation(p: VelocityGroundConstraintNormalPart, dir: Vec3, v: DeltaVel) -> i64 {
    violation(dir, p.gcross2, p.rhs, v)
}

/// Violation rate along tangent axis `k`.
pub open spec fn tangent_violation(
    p: VelocityGroundConstraintTangentPart,
    tangents: [Vec3; 2],
    k: int,
    v: DeltaVel,
) -> i64 {
    violation(tangents@[k], p.gcross2@[k], p.rhs@[k], v)
}

/// One projected Gauss-Seidel step on the normal part: the impulse moves by
/// `-r * violation` and is kept non-negative; the body's velocity follows.
pub open spec fn normal_step(
    p: VelocityGroundConstraintNormalPart,
    dir: Vec3,
    im2: i64,
    v: DeltaVel,
) -> (VelocityGroundConstraintNormalPart, DeltaVel) {
    let new_impulse = larger(minus(p.impulse, times(p.r, normal_violation(p, dir, v))), 0);
    let dlambda = minus(new_impulse, p.impulse);
    (
        VelocityGroundConstraintNormalPart { impulse: new_impulse, ..p },
        DeltaVel {
            linear: sum3(v.linear, linear_change(dir, im2, dlambda)),
            angular: sum3(v.angular, scaled3(p.gcross2, dlambda)),
        },
    )
}

/// The impulse that the tangent step proposes before the friction cone caps it.
pub open spec fn tangent_candidate(
    p: VelocityGroundConstraintTangentPart,
    tangents: [Vec3; 2],
    v: DeltaVel,
) -> Vec2 {
    Vec2 {
        x: minus(p.impulse.x, times(p.r@[0], tangent_violation(p, tangents, 0, v))),
        y: minus(p.impulse.y, times(p.r@[1], tangent_violation(p, tangents, 1, v))),
    }
}

/// One projected Gauss-Seidel step on the tangent part: both axes move by
/// `-r * violation` together, the resulting vector's length is capped to
/// `limit`, and the body's velocity follows, summed over both axes.
pub open spec fn tangent_step(
    p: VelocityGroundConstraintTangentPart,
    tangents: [Vec3; 2],
    im2: i64,
    limit: i64,
    v: DeltaVel,
) -> (VelocityGroundConstraintTangentPart, DeltaVel) {
    let new_impulse = disk_clamp(tangent_candidate(p, tangents, v), limit);
    let d0 = minus(new_impulse.x, p.impulse.x);
    let d1 = minus(new_impulse.y, p.impulse.y);
    (
        VelocityGroundConstraintTangentPart { impulse: new_impulse, ..p },
        DeltaVel {
            linear: sum3(
                v.linear,
                sum3(linear_change(tangents@[0], im2, d0), linear_change(tangents@[1], im2, d1)),
            ),
            angular: sum3(
                v.angular,
                sum3(scaled3(p.gcross2@[0], d0), scaled3(p.gcross2@[1], d1)),
            ),
        },
    )
}

/// Normal parts of `es` solved in order, each against the velocity that the
/// ones before it left.
pub open spec fn normal_pass(
    es: Seq<VelocityGroundConstraintElement>,
    dir: Vec3,
    im2: i64,
    v: DeltaVel,
) -> (Seq<VelocityGroundConstraintElement>, DeltaVel)
    decreases es.len(),
{
    if es.len() == 0 {
        (es, v)
    } else {
        let before = normal_pass(es.drop_last(), dir, im2, v);
        let e = es.last();
        let step = normal_step(e.normal_part, dir, im2, before.1);
        (before.0.push(VelocityGroundConstraintElement { normal_part: step.0, ..e }), step.1)
    }
}

/// Friction limit of an element: the friction coefficient times its normal impulse.
pub open spec fn friction_limit(e: VelocityGroundConstraintElement, friction: i64) -> i64 {
    times(friction, e.normal_part.impulse)
}

/// Tangent parts of `es` solved in order, each against the velocity that the
/// ones before it left and with its own friction limit.
pub open spec fn friction_pass(
    es: Seq<VelocityGroundConstraintElement>,
    tangents: [Vec3; 2],
    im2: i64,
    friction: i64,
    v: DeltaVel,
) -> (Seq<VelocityGroundConstraintElement>, DeltaVel)
    decreases es.len(),
{
    if es.len() == 0 {
        (es, v)
    } else {
        let before = friction_pass(es.drop_last(), tangents, im2, friction, v);
        let e = es.last();
        let step = tangent_step(e.tangent_part, tangents, im2, friction_limit(e, friction), before.1);
        (before.0.push(VelocityGroundConstraintElement { tangent_part: step.0, ..e }), step.1)
    }
}

/// The tangent basis of a group: the given tangent and its cross product with the normal.
pub open spec fn tangent_basis(dir: Vec3, tangent1: Vec3) -> [Vec3; 2] {
    [tangent1, cross3(dir, tangent1)]
}

/// One sweep over a group: the normal pass if asked for, then the friction pass
/// over the tangent basis if asked for.
pub open spec fn group_sweep(
    es: Seq<VelocityGroundConstraintElement>,
    dir: Vec3,
    tangent1: Vec3,
    im2: i64,
    friction: i64,
    v: DeltaVel,
    solve_normal: bool,
    solve_friction: bool,
) -> (Seq<VelocityGroundConstraintElement>, DeltaVel) {
    let after_normal = if solve_normal {
        normal_pass(es, dir, im2, v)
    } else {
        (es, v)
    };
    if solve_friction {
        friction_pass(after_normal.0, tangent_basis(dir, tangent1), im2, friction, after_normal.1)
    } else {
        after_normal
    }
}

fn linear_change_exec(dir: &Vec3, im2: i64, dlambda: i64) -> (r: Vec3)
    ensures
        r == linear_change(*dir, im2, dlambda),
{
    scaled3_exec(dir, fx_times(fx_negate(im2), dlambda))
}

fn violation_exec(dir: &Vec3, gcross2: &Vec3, rhs: i64, v: &DeltaVel) -> (r: i64)
    ensures
        r == violation(*dir, *gcross2, rhs, *v),
{
    fx_plus(fx_plus(fx_negate(dot3_exec(dir, &v.linear)), dot3_exec(gcross2, &v.angular)), rhs)
}

impl VelocityGroundConstraintTangentPart {
    fn zero() -> (r: Self)
        ensures
            r == zero_tangent_part(),
    {
        let z = Vec3 { x: 0, y: 0, z: 0 };
        VelocityGroundConstraintTangentPart {
            gcross2: [z, z],
            rhs: [0, 0],
            impulse: Vec2 { x: 0, y: 0 },
            r: [0, 0],
        }
    }

    /// Solves the friction constraint over both tangent axes once, with the
    /// impulse vector's length capped to `limit`, and applies the change to
    /// `mj_lambda2`.
    pub fn solve(&mut self, tangents1: [Vec3; 2], im2: i64, limit: i64, mj_lambda2: &mut DeltaVel)
        ensures
            (*final(self), *final(mj_lambda2)) == tangent_step(
                *old(self),
                tangents1,
                im2,
                limit,
                *old(mj_lambda2),
            ),
            limit >= 0 ==> norm_sq(final(self).impulse.x as int, final(self).impulse.y as int)
                <= limit * limit,
    {
        let t0 = tangents1[0];
        let t1 = tangents1[1];
        let g0 = self.gcross2[0];
        let g1 = self.gcross2[1];
        let dimpulse_0 = violation_exec(&t0, &g0, self.rhs[0], mj_lambda2);
        let dimpulse_1 = violation_exec(&t1, &g1, self.rhs[1], mj_lambda2);
        let candidate = Vec2 {
            x: fx_minus(self.impulse.x, fx_times(self.r[0], dimpulse_0)),
            y: fx_minus(self.impulse.y, fx_times(self.r[1], dimpulse_1)),
        };
        let new_impulse = disk_clamp_exec(&candidate, limit);
        let d0 = fx_minus(new_impulse.x, self.impulse.x);
        let d1 = fx_minus(new_impulse.y, self.impulse.y);
        self.impulse = new_impulse;
        let lin = sum3_exec(&linear_change_exec(&t0, im2, d0), &linear_change_exec(&t1, im2, d1));
        let ang = sum3_exec(&scaled3_exec(&g0, d0), &scaled3_exec(&g1, d1));
        mj_lambda2.linear = sum3_exec(&mj_lambda2.linear, &lin);
        mj_lambda2.angular = sum3_exec(&mj_lambda2.angular, &ang);
        proof {
            if limit >= 0 {
                lemma_disk_clamp_within(candidate, limit);
            }
        }
    }
}

impl VelocityGroundConstraintNormalPart {
    fn zero() -> (r: Self)
        ensures
            r == zero_normal_part(),
    {
        VelocityGroundConstraintNormalPart {
            gcross2: Vec3 { x: 0, y: 0, z: 0 },
            rhs: 0,
            rhs_wo_bias: 0,
            impulse: 0,
            r: 0,
        }
    }

    /// Solves the non-penetration constraint along `dir` once, with the impulse
    /// kept non-negative, and applies the change to `mj_lambda2`.
    pub fn solve(&mut self, dir: &Vec3, im2: i64, mj_lambda2: &mut DeltaVel)
        ensures
            (*final(self), *final(mj_lambda2)) == normal_step(*old(self), *dir, im2, *old(mj_lambda2)),
            final(self).impulse >= 0,
    {
        let g = self.gcross2;
        let dimpulse = violation_exec(dir, &g, self.rhs, mj_lambda2);
        let new_impulse = fx_larger(fx_minus(self.impulse, fx_times(self.r, dimpulse)), 0);
        let dlambda = fx_minus(new_impulse, self.impulse);
        self.impulse = new_impulse;
        mj_lambda2.linear = sum3_exec(&mj_lambda2.linear, &linear_change_exec(dir, im2, dlambda));
        mj_lambda2.angular = sum3_exec(&mj_lambda2.angular, &scaled3_exec(&g, dlambda));
    }
}

/// The normal part with every field zero.
pub open spec fn zero_normal_part() -> VelocityGroundConstraintNormalPart {
    VelocityGroundConstraintNormalPart {
        gcross2: Vec3 { x: 0, y: 0, z: 0 },
        rhs: 0,
        rhs_wo_bias: 0,
        impulse: 0,
        r: 0,
    }
}

/// The tangent part with every field zero.
pub open spec fn zero_tangent_part() -> VelocityGroundConstraintTangentPart {
    VelocityGroundConstraintTangentPart {
        gcross2: [Vec3 { x: 0, y: 0, z: 0 }, Vec3 { x: 0, y: 0, z: 0 }],
        rhs: [0, 0],
        impulse: Vec2 { x: 0, y: 0 },
        r: [0, 0],
    }
}

impl VelocityGroundConstraintElement {
    /// A fresh, unsolved element: every field zero.
    pub fn zero() -> (r: Self)
        ensures
            r.normal_part == zero_normal_part(),
            r.tangent_part == zero_tangent_part(),
    {
        VelocityGroundConstraintElement {
            normal_part: VelocityGroundConstraintNormalPart::zero(),
            tangent_part: VelocityGroundConstraintTangentPart::zero(),
        }
    }

    /// One Gauss-Seidel sweep over `elements`, in order, all acting on the one
    /// body whose velocity correction is `mj_lambda2`: first the normal parts
    /// along `dir1` if `solve_normal`, then the tangent parts over `tangent1`
    /// and `dir1 x tangent1` if `solve_friction`, each with the limit `limit`
    /// times its normal impulse.
    pub fn solve_group(
        elements: &mut [Self],
        dir1: &Vec3,
        tangent1: &Vec3,
        im2: i64,
        limit: i64,
        mj_lambda2: &mut DeltaVel,
        solve_normal: bool,
        solve_friction: bool,
    )
        ensures
            (final(elements)@, *final(mj_lambda2)) == group_sweep(
                old(elements)@,
                *dir1,
                *tangent1,
                im2,
                limit,
                *old(mj_lambda2),
                solve_normal,
                solve_friction,
            ),
            solve_normal ==> forall|i: int|
                0 <= i < final(elements)@.len() ==> final(elements)@[i].normal_part.impulse >= 0,
            limit >= 0 && solve_friction ==> forall|i: int|
                0 <= i < final(elements)@.len() && final(elements)@[i].normal_part.impulse >= 0
                    ==> within_cone(final(elements)@[i], limit),
    {
        let ghost es0 = elements@;
        let ghost v0 = *mj_lambda2;
        let n = elements.len();
        if solve_normal {
            let mut i: usize = 0;
            while i < n
                invariant
                    n == elements@.len(),
                    n == es0.len(),
                    i <= n,
                    elements@.subrange(0, i as int) == normal_pass(
                        es0.subrange(0, i as int),
                        *dir1,
                        im2,
                        v0,
                    ).0,
                    *mj_lambda2 == normal_pass(es0.subrange(0, i as int), *dir1, im2, v0).1,
                    elements@.subrange(i as int, n as int) == es0.subrange(i as int, n as int),
                decreases n - i,
            {
                let ghost before = elements@;
                proof {
                    assert(es0.subrange(0, i + 1).drop_last() == es0.subrange(0, i as int));
                    assert(es0.subrange(0, i + 1).last() == es0[i as int]);
                    assert(before[i as int] == before.subrange(i as int, n as int)[0]);
                }
                elements[i].normal_part.solve(dir1, im2, mj_lambda2);
                proof {
                    assert(elements@.subrange(0, i + 1) == before.subrange(0, i as int).push(
                        elements@[i as int],
                    ));
                    assert(elements@.subrange(i + 1, n as int) == before.subrange(
                        i + 1,
                        n as int,
                    ));
                    assert(before.subrange(i + 1, n as int) == before.subrange(
                        i as int,
                        n as int,
                    ).subrange(1, n - i));
                    assert(es0.subrange(i + 1, n as int) == es0.subrange(
                        i as int,
                        n as int,
                    ).subrange(1, n - i));
                }
                i = i + 1;
            }
            proof {
                assert(es0.subrange(0, n as int) == es0);
                assert(elements@.subrange(0, n as int) == elements@);
                lemma_normal_pass_nonnegative(es0, *dir1, im2, v0);
            }
        }
        let ghost es1 = elements@;
        let ghost v1 = *mj_lambda2;
        if solve_friction {
            let tangents1 = [*tangent1, cross3_exec(dir1, tangent1)];
            let mut i: usize = 0;
            while i < n
                invariant
                    n == elements@.len(),
                    n == es1.len(),
                    i <= n,
                    tangents1 == tangent_basis(*dir1, *tangent1),
                    elements@.subrange(0, i as int) == friction_pass(
                        es1.subrange(0, i as int),
                        tangents1,
                        im2,
                        limit,
                        v1,
                    ).0,
                    *mj_lambda2 == friction_pass(es1.subrange(0, i as int), tangents1, im2, limit, v1).1,
                    elements@.subrange(i as int, n as int) == es1.subrange(i as int, n as int),
                decreases n - i,
            {
                let ghost before = elements@;
                proof {
                    assert(es1.subrange(0, i + 1).drop_last() == es1.subrange(0, i as int));
                    assert(es1.subrange(0, i + 1).last() == es1[i as int]);
                    assert(before[i as int] == before.subrange(i as int, n as int)[0]);
                }
                let element_limit = fx_times(limit, elements[i].normal_part.impulse);
                elements[i].tangent_part.solve(tangents1, im2, element_limit, mj_lambda2);
                proof {
                    assert(elements@.subrange(0, i + 1) == before.subrange(0, i as int).push(
                        elements@[i as int],
                    ));
                    assert(elements@.subrange(i + 1, n as int) == before.subrange(
                        i + 1,
                        n as int,
                    ));
                    assert(before.subrange(i + 1, n as int) == before.subrange(
                        i as int,
                        n as int,
                    ).subrange(1, n - i));
                    assert(es1.subrange(i + 1, n as int) == es1.subrange(
                        i as int,
                        n as int,
                    ).subrange(1, n - i));
                }
                i = i + 1;
            }
            proof {
                assert(es1.subrange(0, n as int) == es1);
                assert(elements@.subrange(0, n as int) == elements@);
                lemma_friction_pass_within_cone(es1, tangents1, im2, limit, v1);
            }
        }
    }
}

/// The tangent impulse of `e` lies within its friction cone: its Euclidean
/// length is at most `friction` times the normal impulse.
pub open spec fn within_cone(e: VelocityGroundConstraintElement, friction: i64) -> bool {
    norm_sq(e.tangent_part.impulse.x as int, e.tangent_part.impulse.y as int) <= friction_limit(
        e,
        friction,
    ) * friction_limit(e, friction)
}

/// After a normal pass every normal impulse is non-negative, whatever the
/// right-hand sides, and the pass keeps the length of the group.
pub proof fn lemma_normal_pass_nonnegative(
    es: Seq<VelocityGroundConstraintElement>,
    dir: Vec3,
    im2: i64,
    v: DeltaVel,
)
    ensures
        normal_pass(es, dir, im2, v).0.len() == es.len(),
        forall|i: int|
            0 <= i < es.len() ==> (#[trigger] normal_pass(es, dir, im2, v).0[i]).normal_part.impulse
                >= 0,
        forall|i: int|
            0 <= i < es.len() ==> (#[trigger] normal_pass(es, dir, im2, v).0[i]).tangent_part
                == es[i].tangent_part,
    decreases es.len(),
{
    if es.len() > 0 {
        lemma_normal_pass_nonnegative(es.drop_last(), dir, im2, v);
    }
}

/// After a friction pass with a non-negative friction coefficient, every
/// element whose normal impulse is non-negative has its tangent impulse within
/// the friction cone; the pass leaves the normal parts as they were.
pub proof fn lemma_friction_pass_within_cone(
    es: Seq<VelocityGroundConstraintElement>,
    tangents: [Vec3; 2],
    im2: i64,
    friction: i64,
    v: DeltaVel,
)
    ensures
        friction_pass(es, tangents, im2, friction, v).0.len() == es.len(),
        forall|i: int|
            0 <= i < es.len() ==> (#[trigger] friction_pass(es, tangents, im2, friction, v).0[i]).normal_part
                == es[i].normal_part,
        friction >= 0 ==> forall|i: int|
            0 <= i < es.len() && es[i].normal_part.impulse >= 0 ==> within_cone(
                #[trigger] friction_pass(es, tangents, im2, friction, v).0[i],
                friction,
            ),
    decreases es.len(),
{
    if es.len() > 0 {
        lemma_friction_pass_within_cone(es.drop_last(), tangents, im2, friction, v);
        let e = es.last();
        if friction >= 0 && e.normal_part.impulse >= 0 {
            crate::fixed::lemma_times_nonnegative(friction, e.normal_part.impulse);
            let before = friction_pass(es.drop_last(), tangents, im2, friction, v);
            lemma_disk_clamp_within(
                tangent_candidate(e.tangent_part, tangents, before.1),
                friction_limit(e, friction),
            );
        }
    }
}

/// The normal constraint is satisfied at velocity `v`: no violation, and an
/// impulse that the clamp keeps.
pub open spec fn normal_at_rest(p: VelocityGroundConstraintNormalPart, dir: Vec3, v: DeltaVel) -> bool {
    normal_violation(p, dir, v) == 0 && p.impulse >= 0
}

/// The friction constraint is satisfied at velocity `v`: no violation on
/// either axis, and an impulse inside the friction cone.
pub open spec fn tangent_at_rest(
    e: VelocityGroundConstraintElement,
    tangents: [Vec3; 2],
    friction: i64,
    v: DeltaVel,
) -> bool {
    tangent_violation(e.tangent_part, tangents, 0, v) == 0 && tangent_violation(
        e.tangent_part,
        tangents,
        1,
        v,
    ) == 0 && within_cone(e, friction)
}

/// Every constraint of the group is satisfied at velocity `v`.
pub open spec fn group_at_rest(
    es: Seq<VelocityGroundConstraintElement>,
    dir: Vec3,
    tangent1: Vec3,
    friction: i64,
    v: DeltaVel,
) -> bool {
    forall|i: int|
        0 <= i < es.len() ==> normal_at_rest(#[trigger] es[i].normal_part, dir, v) && tangent_at_rest(
            es[i],
            tangent_basis(dir, tangent1),
            friction,
            v,
        )
}

proof fn lemma_scaled_by_nothing(a: Vec3)
    ensures
        scaled3(a, 0) == (Vec3 { x: 0, y: 0, z: 0 }),
{
    assert(a.x * 0 == 0);
    assert(a.y * 0 == 0);
    assert(a.z * 0 == 0);
}

proof fn lemma_normal_pass_at_rest(
    es: Seq<VelocityGroundConstraintElement>,
    dir: Vec3,
    im2: i64,
    v: DeltaVel,
)
    requires
        forall|i: int| 0 <= i < es.len() ==> normal_at_rest(#[trigger] es[i].normal_part, dir, v),
    ensures
        normal_pass(es, dir, im2, v) == (es, v),
    decreases es.len(),
{
    if es.len() > 0 {
        let rest = es.drop_last();
        assert forall|i: int| 0 <= i < rest.len() implies normal_at_rest(
            #[trigger] rest[i].normal_part,
            dir,
            v,
        ) by {
            assert(rest[i] == es[i]);
        }
        lemma_normal_pass_at_rest(rest, dir, im2, v);
        let e = es.last();
        assert(normal_at_rest(es[es.len() - 1].normal_part, dir, v));
        assert(e.normal_part.r * 0 == 0);
        assert(negate(im2) * 0 == 0);
        lemma_scaled_by_nothing(dir);
        lemma_scaled_by_nothing(e.normal_part.gcross2);
        assert(rest.push(e) == es);
    }
}

proof fn lemma_friction_pass_at_rest(
    es: Seq<VelocityGroundConstraintElement>,
    tangents: [Vec3; 2],
    im2: i64,
    friction: i64,
    v: DeltaVel,
)
    requires
        forall|i: int| 0 <= i < es.len() ==> tangent_at_rest(#[trigger] es[i], tangents, friction, v),
    ensures
        friction_pass(es, tangents, im2, friction, v) == (es, v),
    decreases es.len(),
{
    if es.len() > 0 {
        let rest = es.drop_last();
        assert forall|i: int| 0 <= i < rest.len() implies tangent_at_rest(
            #[trigger] rest[i],
            tangents,
            friction,
            v,
        ) by {
            assert(rest[i] == es[i]);
        }
        lemma_friction_pass_at_rest(rest, tangents, im2, friction, v);
        let e = es.last();
        let p = e.tangent_part;
        assert(tangent_at_rest(es[es.len() - 1], tangents, friction, v));
        assert(p.r@[0] * 0 == 0);
        assert(p.r@[1] * 0 == 0);
        assert(tangent_candidate(p, tangents, v) == p.impulse);
        assert(negate(im2) * 0 == 0);
        lemma_scaled_by_nothing(tangents@[0]);
        lemma_scaled_by_nothing(tangents@[1]);
        lemma_scaled_by_nothing(p.gcross2@[0]);
        lemma_scaled_by_nothing(p.gcross2@[1]);
        assert(rest.push(e) == es);
    }
}

/// A group whose constraints are all satisfied is a fixed point of the sweep:
/// a further `solve_group` changes neither an impulse nor the velocity.
pub proof fn lemma_sweep_at_rest(
    es: Seq<VelocityGroundConstraintElement>,
    dir: Vec3,
    tangent1: Vec3,
    im2: i64,
    friction: i64,
    v: DeltaVel,
    solve_normal: bool,
    solve_friction: bool,
)
    requires
        group_at_rest(es, dir, tangent1, friction, v),
    ensures
        group_sweep(es, dir, tangent1, im2, friction, v, solve_normal, solve_friction) == (es, v),
{
    if solve_normal {
        lemma_normal_pass_at_rest(es, dir, im2, v);
    }
    if solve_friction {
        assert forall|i: int| 0 <= i < es.len() implies tangent_at_rest(
            #[trigger] es[i],
            tangent_basis(dir, tangent1),
            friction,
            v,
        ) by {
            assert(normal_at_rest(es[i].normal_part, dir, v));
        }
        lemma_friction_pass_at_rest(es, tangent_basis(dir, tangent1), im2, friction, v);
    }
}

/// On a vector along the first axis the disk clamp is the box clamp of that
/// axis: the second axis stays zero.
pub proof fn lemma_disk_clamp_on_axis(c: i64, limit: i64)
    requires
        limit >= 0,
    ensures
        disk_clamp(Vec2 { x: c, y: 0 }, limit) == (Vec2 { x: box_clamp(c, limit), y: 0 }),
{
    let v = Vec2 { x: c, y: 0 };
    let n = norm_sq(c as int, 0);
    let l = limit as int;
    let a: int = if c >= 0 { c as int } else { -c };
    assert(n == c * c);
    assert(a * a == c * c) by (nonlinear_arith)
        requires
            a == c || a == -c,
    ;
    if n <= l * l {
        assert(a <= l) by (nonlinear_arith)
            requires
                a * a <= l * l,
                a >= 0,
                l >= 0,
        ;
    } else {
        assert(a > l) by (nonlinear_arith)
            requires
                a * a > l * l,
                a >= 0,
                l >= 0,
        ;
        assert((a - 1) * (a - 1) < a * a) by (nonlinear_arith)
            requires
                a >= 1,
        ;
        assert(is_ceil_root(n, a));
        lemma_ceil_root_is(n, a);
        lemma_div_multiples_vanish(l, a);
        assert(a * l == l * a) by (nonlinear_arith);
        if c >= 0 {
            assert(toward_zero(c * l, a) == l);
        } else {
            assert(-(c * l) == a * l) by (nonlinear_arith)
                requires
                    a == -c,
            ;
            assert(toward_zero(c * l, a) == -l);
        }
        assert(0 * l == 0);
        assert(toward_zero(0 * l, a) == 0);
    }
}

/// With nothing to do on the second tangent axis (no violation and no impulse
/// there), the three-dimensional friction step gives on the first axis what the
/// two-dimensional step gives for the same impulse, compliance and violation.
pub proof fn lemma_tangent_step_reduces_to_planar(
    p: VelocityGroundConstraintTangentPart,
    tangents: [Vec3; 2],
    v: DeltaVel,
    im2: i64,
    limit: i64,
    q: crate::dim2::VelocityGroundConstraintTangentPart,
    tangent: Vec2,
    w: crate::dim2::DeltaVel,
    im2_planar: i64,
)
    requires
        limit >= 0,
        p.impulse.y == 0,
        tangent_violation(p, tangents, 1, v) == 0,
        q.impulse == p.impulse.x,
        q.r == p.r@[0],
        crate::dim2::tangent_violation(q, tangent, w) == tangent_violation(p, tangents, 0, v),
    ensures
        tangent_step(p, tangents, im2, limit, v).0.impulse == (Vec2 {
            x: crate::dim2::tangent_step(q, tangent, im2_planar, limit, w).0.impulse,
            y: 0,
        }),
{
    assert(p.r@[1] * 0 == 0);
    let c = tangent_candidate(p, tangents, v);
    assert(c.y == 0);
    lemma_disk_clamp_on_axis(c.x, limit);
}

} // verus!
