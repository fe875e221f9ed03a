use ground_contact::dim2;
use ground_contact::dim3::{
    DeltaVel, VelocityGroundConstraintElement, VelocityGroundConstraintNormalPart,
    VelocityGroundConstraintTangentPart,
};
use ground_contact::fixed::ONE;
use ground_contact::math::{Vec2, Vec3};

const HALF: i64 = ONE / 2;

fn still() -> DeltaVel {
    let z = Vec3 { x: 0, y: 0, z: 0 };
    DeltaVel { linear: z, angular: z }
}

fn contact(rhs: i64, r: i64, tangent_rhs: [i64; 2]) -> VelocityGroundConstraintElement {
    let mut e = VelocityGroundConstraintElement::zero();
    e.normal_part.rhs = rhs;
    e.normal_part.r = r;
    e.tangent_part.rhs = tangent_rhs;
    e.tangent_part.r = [ONE, ONE];
    e
}

fn norm_sq(v: Vec2) -> i128 {
    (v.x as i128) * (v.x as i128) + (v.y as i128) * (v.y as i128)
}

#[test]
fn zero_element_is_all_zero_in_space() {
    let e = VelocityGroundConstraintElement::zero();
    let z = Vec3 { x: 0, y: 0, z: 0 };
    assert_eq!(
        e.normal_part,
        VelocityGroundConstraintNormalPart { gcross2: z, rhs: 0, rhs_wo_bias: 0, impulse: 0, r: 0 }
    );
    assert_eq!(
        e.tangent_part,
        VelocityGroundConstraintTangentPart {
            gcross2: [z, z],
            rhs: [0, 0],
            impulse: Vec2 { x: 0, y: 0 },
            r: [0, 0],
        }
    );
}

#[test]
fn disk_clamp_scales_toward_the_origin() {
    let mut p = VelocityGroundConstraintTangentPart {
        gcross2: [Vec3 { x: 0, y: 0, z: 0 }; 2],
        rhs: [-3 * ONE, -4 * ONE],
        impulse: Vec2 { x: 0, y: 0 },
        r: [ONE, ONE],
    };
    let tangents = [Vec3 { x: ONE, y: 0, z: 0 }, Vec3 { x: 0, y: ONE, z: 0 }];
    let mut v = still();
    p.solve(tangents, ONE, 5 * HALF, &mut v);
    assert_eq!(p.impulse, Vec2 { x: 3 * HALF, y: 2 * ONE });
    assert_eq!(v.linear, Vec3 { x: -3 * HALF, y: -2 * ONE, z: 0 });
}

#[test]
fn disk_clamp_is_not_a_square() {
    let mut p = VelocityGroundConstraintTangentPart {
        gcross2: [Vec3 { x: 0, y: 0, z: 0 }; 2],
        rhs: [-ONE, -ONE],
        impulse: Vec2 { x: 0, y: 0 },
        r: [ONE, ONE],
    };
    let tangents = [Vec3 { x: ONE, y: 0, z: 0 }, Vec3 { x: 0, y: ONE, z: 0 }];
    let mut v = still();
    p.solve(tangents, ONE, ONE, &mut v);
    assert!(p.impulse.x < ONE && p.impulse.y < ONE);
    assert!(norm_sq(p.impulse) <= (ONE as i128) * (ONE as i128));
    assert_eq!(p.impulse.x, p.impulse.y);
}

#[test]
fn second_axis_is_normal_cross_tangent() {
    let mut e = contact(0, ONE, [0, -ONE]);
    e.normal_part.impulse = ONE;
    let mut es = [e];
    let mut v = still();
    let normal = Vec3 { x: 0, y: 0, z: ONE };
    let tangent = Vec3 { x: ONE, y: 0, z: 0 };
    VelocityGroundConstraintElement::solve_group(&mut es, &normal, &tangent, ONE, ONE, &mut v, false, true);
    assert_eq!(es[0].tangent_part.impulse, Vec2 { x: 0, y: ONE });
    assert_eq!(v.linear, Vec3 { x: 0, y: -ONE, z: 0 });
}

#[test]
fn normal_impulse_never_negative_in_space() {
    let mut p = VelocityGroundConstraintNormalPart {
        gcross2: Vec3 { x: ONE, y: 0, z: -ONE },
        rhs: 0,
        rhs_wo_bias: 0,
        impulse: 2 * ONE,
        r: ONE,
    };
    let dir = Vec3 { x: 0, y: ONE, z: 0 };
    let mut v = still();
    for rhs in [ONE, -ONE, i64::MAX, i64::MIN, 3, -3 * ONE] {
        p.rhs = rhs;
        p.solve(&dir, ONE, &mut v);
        assert!(p.impulse >= 0);
    }
}

#[test]
fn friction_stays_in_disk() {
    let normal = Vec3 { x: 0, y: 0, z: ONE };
    let tangent = Vec3 { x: ONE, y: 0, z: 0 };
    let mut e = contact(-ONE, ONE, [0, 0]);
    let mut v = still();
    for rhs in [[3 * ONE, 2 * ONE], [-ONE, 5 * ONE], [ONE / 16, -ONE / 16], [i64::MAX, i64::MIN]] {
        e.tangent_part.rhs = rhs;
        let mut es = [e];
        VelocityGroundConstraintElement::solve_group(&mut es, &normal, &tangent, ONE, HALF, &mut v, true, true);
        e = es[0];
        let limit = (e.normal_part.impulse / 2) as i128;
        assert!(norm_sq(e.tangent_part.impulse) <= limit * limit);
    }
}

#[test]
fn converged_group_is_a_fixed_point_in_space() {
    let normal = Vec3 { x: 0, y: ONE, z: 0 };
    let tangent = Vec3 { x: -ONE, y: 0, z: 0 };
    let mut es = [contact(-ONE, ONE, [0, 0]), contact(0, ONE, [0, 0])];
    let mut v = still();
    VelocityGroundConstraintElement::solve_group(&mut es, &normal, &tangent, ONE, HALF, &mut v, true, true);
    let settled = es;
    let settled_v = v;
    VelocityGroundConstraintElement::solve_group(&mut es, &normal, &tangent, ONE, HALF, &mut v, true, true);
    assert_eq!(es, settled);
    assert_eq!(v, settled_v);
}

#[test]
fn spatial_friction_reduces_to_planar_on_one_axis() {
    for tangent_rhs in [2 * ONE, ONE / 4, -3 * ONE, -ONE / 8] {
        let mut flat = dim2::VelocityGroundConstraintElement::zero();
        flat.normal_part.rhs = -ONE;
        flat.normal_part.r = ONE;
        flat.tangent_part.rhs = tangent_rhs;
        flat.tangent_part.r = ONE;
        let mut flat_group = [flat];
        let mut flat_v = dim2::DeltaVel { linear: Vec2 { x: 0, y: 0 }, angular: 0 };
        dim2::VelocityGroundConstraintElement::solve_group(
            &mut flat_group,
            &Vec2 { x: 0, y: ONE },
            ONE,
            HALF,
            &mut flat_v,
            true,
            true,
        );

        let mut group = [contact(-ONE, ONE, [tangent_rhs, 0])];
        let mut v = still();
        VelocityGroundConstraintElement::solve_group(
            &mut group,
            &Vec3 { x: 0, y: ONE, z: 0 },
            &Vec3 { x: -ONE, y: 0, z: 0 },
            ONE,
            HALF,
            &mut v,
            true,
            true,
        );

        assert_eq!(group[0].normal_part.impulse, flat_group[0].normal_part.impulse);
        assert_eq!(group[0].tangent_part.impulse.x, flat_group[0].tangent_part.impulse);
        assert_eq!(group[0].tangent_part.impulse.y, 0);
        assert_eq!(v.linear.x, flat_v.linear.x);
        assert_eq!(v.linear.y, flat_v.linear.y);
        assert_eq!(v.linear.z, 0);
    }
}
