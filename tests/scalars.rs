use ground_contact::fixed::{fx_box_clamp, fx_larger, fx_minus, fx_negate, fx_plus, fx_times, ONE};
use ground_contact::math::{cross3_exec, disk_clamp_exec, dot2_exec, quarter_turn_exec, Vec2, Vec3};

#[test]
fn product_is_rescaled() {
    assert_eq!(fx_times(3 * ONE, ONE / 2), 3 * ONE / 2);
    assert_eq!(fx_times(-2 * ONE, 3 * ONE), -6 * ONE);
    assert_eq!(fx_times(ONE / 4, ONE / 4), ONE / 16);
}

#[test]
fn product_rounds_toward_zero() {
    assert_eq!(fx_times(3, ONE / 2), 1);
    assert_eq!(fx_times(-3, ONE / 2), -1);
}

#[test]
fn operations_saturate() {
    assert_eq!(fx_plus(i64::MAX, 1), i64::MAX);
    assert_eq!(fx_minus(i64::MIN, 1), i64::MIN);
    assert_eq!(fx_negate(i64::MIN), i64::MAX);
    assert_eq!(fx_times(i64::MAX, i64::MAX), i64::MAX);
    assert_eq!(fx_times(i64::MIN, i64::MAX), i64::MIN);
}

#[test]
fn larger_and_box_clamp() {
    assert_eq!(fx_larger(-5, 0), 0);
    assert_eq!(fx_larger(5, 0), 5);
    assert_eq!(fx_box_clamp(-2 * ONE, ONE / 2), -ONE / 2);
    assert_eq!(fx_box_clamp(2 * ONE, ONE / 2), ONE / 2);
    assert_eq!(fx_box_clamp(ONE / 4, ONE / 2), ONE / 4);
}

#[test]
fn vector_helpers() {
    assert_eq!(dot2_exec(&Vec2 { x: ONE, y: 2 * ONE }, &Vec2 { x: 3 * ONE, y: -ONE }), ONE);
    assert_eq!(quarter_turn_exec(&Vec2 { x: 0, y: ONE }), Vec2 { x: -ONE, y: 0 });
    assert_eq!(
        cross3_exec(&Vec3 { x: 0, y: 0, z: ONE }, &Vec3 { x: ONE, y: 0, z: 0 }),
        Vec3 { x: 0, y: ONE, z: 0 }
    );
}

#[test]
fn disk_clamp_keeps_short_vectors() {
    let v = Vec2 { x: 3 * ONE, y: -4 * ONE };
    assert_eq!(disk_clamp_exec(&v, 5 * ONE), v);
}

#[test]
fn disk_clamp_of_extreme_vector() {
    let r = disk_clamp_exec(&Vec2 { x: i64::MIN, y: i64::MIN }, ONE);
    let n = (r.x as i128) * (r.x as i128) + (r.y as i128) * (r.y as i128);
    assert!(n <= (ONE as i128) * (ONE as i128));
    assert!(r.x < 0 && r.y < 0);
}

#[test]
fn disk_clamp_on_axis_is_box_clamp() {
    assert_eq!(disk_clamp_exec(&Vec2 { x: -7 * ONE, y: 0 }, 2 * ONE), Vec2 { x: -2 * ONE, y: 0 });
    assert_eq!(disk_clamp_exec(&Vec2 { x: 7 * ONE, y: 0 }, 2 * ONE), Vec2 { x: 2 * ONE, y: 0 });
}
