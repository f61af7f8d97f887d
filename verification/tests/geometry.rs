use tds::character::Health;
use tds::geom::{closest_point_of_line_to_circle, div_trunc_i128, floor_div_i64, isqrt, reflect, Vec2};

#[test]
fn div_trunc_rounds_toward_zero() {
    assert_eq!(div_trunc_i128(7, 2), 3);
    assert_eq!(div_trunc_i128(-7, 2), -3);
    assert_eq!(div_trunc_i128(7, -2), -3);
    assert_eq!(div_trunc_i128(-7, -2), 3);
    assert_eq!(div_trunc_i128(0, 5), 0);
}

#[test]
fn floor_div_rounds_down() {
    assert_eq!(floor_div_i64(7, 2), 3);
    assert_eq!(floor_div_i64(-7, 2), -4);
    assert_eq!(floor_div_i64(-32000, 32000), -1);
    assert_eq!(floor_div_i64(-32001, 32000), -2);
    assert_eq!(floor_div_i64(31999, 32000), 0);
}

#[test]
fn isqrt_exact_values() {
    assert_eq!(isqrt(0), 0);
    assert_eq!(isqrt(1), 1);
    assert_eq!(isqrt(3), 1);
    assert_eq!(isqrt(4), 2);
    assert_eq!(isqrt(2_000_000), 1414);
    assert_eq!(isqrt(u64::MAX), 0xffff_ffff);
}

#[test]
fn reflection_reverses_against_axis_normal() {
    let v = Vec2 { x: 3000, y: 4000 };
    let n = Vec2 { x: -1, y: 0 };
    let r = reflect(v, n);
    assert_eq!(r, Vec2 { x: -3000, y: 4000 });
    // energy preserved exactly for a unit axis normal
    assert_eq!(r.x * r.x + r.y * r.y, v.x * v.x + v.y * v.y);
}

#[test]
fn reflection_about_diagonal_normal() {
    let v = Vec2 { x: 1000, y: 0 };
    let n = Vec2 { x: 1, y: 1 };
    // v - 2 (v.n / n.n) n = (1000,0) - (1000,1000) = (0,-1000)
    let r = reflect(v, n);
    assert_eq!(r, Vec2 { x: 0, y: -1000 });
}

#[test]
fn degenerate_normal_leaves_vector_unchanged() {
    let v = Vec2 { x: 123, y: -456 };
    let r = reflect(v, Vec2 { x: 0, y: 0 });
    assert_eq!(r, v);
}

#[test]
fn closest_point_is_projection_clamped_to_segment() {
    let s = Vec2 { x: 0, y: 0 };
    let d = Vec2 { x: 10000, y: 0 };
    // projection interior to the segment
    let p = closest_point_of_line_to_circle(s, d, Vec2 { x: 4000, y: 5000 });
    assert_eq!(p, Vec2 { x: 4000, y: 0 });
    // clamped to the far endpoint
    let p = closest_point_of_line_to_circle(s, d, Vec2 { x: 20000, y: 100 });
    assert_eq!(p, Vec2 { x: 10000, y: 0 });
    // clamped to the near endpoint
    let p = closest_point_of_line_to_circle(s, d, Vec2 { x: -5000, y: 100 });
    assert_eq!(p, Vec2 { x: 0, y: 0 });
    // a zero-length segment yields its single point
    let p = closest_point_of_line_to_circle(s, Vec2 { x: 0, y: 0 }, Vec2 { x: 7, y: 7 });
    assert_eq!(p, Vec2 { x: 0, y: 0 });
}

#[test]
fn weapon_damage_scales_by_penetration() {
    let mut h = Health { hp: 100_000 };
    h.weapon_damage(105_000, 850);
    assert_eq!(h.hp, 100_000 - 89_250);
    let mut h = Health { hp: 50_000 };
    h.weapon_damage(55_000, 850);
    assert_eq!(h.hp, 50_000 - 46_750);
}
