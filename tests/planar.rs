use ground_contact::dim2::{
    DeltaVel, VelocityGroundConstraintElement, VelocityGroundConstraintNormalPart,
    VelocityGroundConstraintTangentPart,
};
use ground_contact::fixed::ONE;
use ground_contact::math::Vec2;

const HALF: i64 = ONE / 2;

fn still() -> DeltaVel {
    DeltaVel { linear: Vec2 { x: 0, y: 0 }, angular: 0 }
}

fn up() -> Vec2 {
    Vec2 { x: 0, y: ONE }
}

fn contact(rhs: i64, r: i64, tangent_rhs: i64) -> VelocityGroundConstraintElement {
    let mut e = VelocityGroundConstraintElement::zero();
    e.normal_part.rhs = rhs;
    e.normal_part.r = r;
    e.tangent_part.rhs = tangent_rhs;
    e.tangent_part.r = ONE;
    e
}

#[test]
fn zero_element_is_all_zero() {
    let e = VelocityGroundConstraintElement::zero();
    assert_eq!(
        e.normal_part,
        VelocityGroundConstraintNormalPart { gcross2: 0, rhs: 0, rhs_wo_bias: 0, impulse: 0, r: 0 }
    );
    assert_eq!(
        e.tangent_part,
        VelocityGroundConstraintTangentPart { gcross2: 0, rhs: 0, impulse: 0, r: 0 }
    );
}

#[test]
fn approaching_body_normal_then_friction_saturates() {
    let mut e = contact(-ONE, ONE, 2 * ONE);
    let mut v = still();
    e.normal_part.solve(&up(), ONE, &mut v);
    assert_eq!(e.normal_part.impulse, ONE);
    assert_eq!(v.linear, Vec2 { x: 0, y: -ONE });
    assert_eq!(v.angular, 0);

    let tangent = Vec2 { x: -ONE, y: 0 };
    let limit = HALF;
    e.tangent_part.solve(&tangent, ONE, limit, &mut v);
    assert_eq!(e.tangent_part.impulse, -HALF);
    assert_eq!(v.linear, Vec2 { x: -HALF, y: -ONE });
}

#[test]
fn approaching_body_through_group_solve() {
    let mut es = [contact(-ONE, ONE, 2 * ONE)];
    let mut v = still();
    VelocityGroundConstraintElement::solve_group(&mut es, &up(), ONE, HALF, &mut v, true, true);
    assert_eq!(es[0].normal_part.impulse, ONE);
    assert_eq!(es[0].tangent_part.impulse, -HALF);
    assert_eq!(v.linear, Vec2 { x: -HALF, y: -ONE });
}

#[test]
fn angular_term_enters_violation_and_correction() {
    let mut p = VelocityGroundConstraintNormalPart {
        gcross2: 2 * ONE,
        rhs: 0,
        rhs_wo_bias: 0,
        impulse: 0,
        r: ONE,
    };
    let mut v = DeltaVel { linear: Vec2 { x: 0, y: 0 }, angular: -ONE };
    p.solve(&up(), ONE, &mut v);
    assert_eq!(p.impulse, 2 * ONE);
    assert_eq!(v.linear, Vec2 { x: 0, y: -2 * ONE });
    assert_eq!(v.angular, 3 * ONE);
}

#[test]
fn separating_body_gets_no_impulse() {
    let mut e = contact(ONE, ONE, 0);
    let mut v = still();
    e.normal_part.solve(&up(), ONE, &mut v);
    assert_eq!(e.normal_part.impulse, 0);
    assert_eq!(v, still());
}

#[test]
fn normal_impulse_never_negative() {
    let rhs_values = [ONE, -ONE, 5 * ONE, -3 * ONE, i64::MAX, i64::MIN, 0, 7, -7];
    let mut e = contact(0, ONE, 0);
    e.normal_part.impulse = 3 * ONE;
    let mut v = still();
    for rhs in rhs_values {
        e.normal_part.rhs = rhs;
        e.normal_part.solve(&up(), ONE, &mut v);
        assert!(e.normal_part.impulse >= 0);
    }
}

#[test]
fn friction_stays_in_box() {
    let mut e = contact(-ONE, ONE, 0);
    let mut v = still();
    for tangent_rhs in [3 * ONE, -5 * ONE, ONE / 8, -ONE / 8, i64::MAX, i64::MIN] {
        e.tangent_part.rhs = tangent_rhs;
        let mut es = [e];
        VelocityGroundConstraintElement::solve_group(&mut es, &up(), ONE, HALF, &mut v, true, true);
        e = es[0];
        let limit = e.normal_part.impulse / 2;
        assert!(e.tangent_part.impulse.abs() <= limit);
    }
}

#[test]
fn unsaturated_friction_is_not_clamped() {
    let mut e = contact(-ONE, ONE, ONE / 4);
    let mut v = still();
    e.normal_part.solve(&up(), ONE, &mut v);
    e.tangent_part.solve(&Vec2 { x: -ONE, y: 0 }, ONE, HALF, &mut v);
    assert_eq!(e.tangent_part.impulse, -ONE / 4);
}

#[test]
fn friction_uses_prior_normal_impulse_when_normal_skipped() {
    let mut e = contact(-ONE, ONE, 2 * ONE);
    e.normal_part.impulse = ONE / 4;
    let mut es = [e];
    let mut v = still();
    VelocityGroundConstraintElement::solve_group(&mut es, &up(), ONE, HALF, &mut v, false, true);
    assert_eq!(es[0].normal_part.impulse, ONE / 4);
    assert_eq!(es[0].tangent_part.impulse, -ONE / 8);
}

#[test]
fn group_with_no_pass_changes_nothing() {
    let mut es = [contact(-ONE, ONE, ONE), contact(-2 * ONE, HALF, -ONE)];
    let before = es;
    let mut v = still();
    VelocityGroundConstraintElement::solve_group(&mut es, &up(), ONE, HALF, &mut v, false, false);
    assert_eq!(es, before);
    assert_eq!(v, still());
}

#[test]
fn group_order_is_respected() {
    let a = contact(-ONE, ONE, 0);
    let b = contact(-ONE, HALF, 0);

    let mut ab = [a, b];
    let mut v = still();
    VelocityGroundConstraintElement::solve_group(&mut ab, &up(), ONE, HALF, &mut v, true, false);
    assert_eq!(ab[0].normal_part.impulse, ONE);
    assert_eq!(ab[1].normal_part.impulse, 0);

    let mut ba = [b, a];
    let mut w = still();
    VelocityGroundConstraintElement::solve_group(&mut ba, &up(), ONE, HALF, &mut w, true, false);
    assert_eq!(ba[0].normal_part.impulse, HALF);
    assert_eq!(ba[1].normal_part.impulse, HALF);

    assert_ne!(ab[0].normal_part.impulse, ba[1].normal_part.impulse);
    assert_eq!(v, w);
}

#[test]
fn repeated_sweeps_shrink_the_violation() {
    let rhs = -ONE;
    let mut es = [contact(rhs, HALF, 0)];
    let mut v = still();
    let mut previous = (-v.linear.y + rhs).abs();
    for _ in 0..24 {
        VelocityGroundConstraintElement::solve_group(&mut es, &up(), ONE, HALF, &mut v, true, false);
        let violation = (-v.linear.y + rhs).abs();
        assert!(violation <= previous);
        previous = violation;
    }
    assert!(previous <= 1);
    assert!(es[0].normal_part.impulse > 0);
}

#[test]
fn converged_group_is_a_fixed_point() {
    let mut es = [contact(-ONE, ONE, 0), contact(0, ONE, 0)];
    let mut v = still();
    VelocityGroundConstraintElement::solve_group(&mut es, &up(), ONE, HALF, &mut v, true, true);
    let settled = es;
    let settled_v = v;
    VelocityGroundConstraintElement::solve_group(&mut es, &up(), ONE, HALF, &mut v, true, true);
    assert_eq!(es, settled);
    assert_eq!(v, settled_v);
}
