use raytracer::fixed::Fixed;
use raytracer::vec3::{dot, reflect, unit_vector, Vec3};

fn fx(millionths: i64) -> Fixed {
    Fixed::from_raw(millionths)
}

fn v(x: i64, y: i64, z: i64) -> Vec3 {
    Vec3::new(fx(x), fx(y), fx(z))
}

/// Normals of exactly unit length.
fn unit_normals() -> Vec<Vec3> {
    vec![
        v(1_000_000, 0, 0),
        v(0, -1_000_000, 0),
        v(600_000, 800_000, 0),
        v(0, 280_000, -960_000),
        v(360_000, 480_000, 800_000),
    ]
}

#[test]
fn the_normals_used_here_have_exactly_unit_length() {
    for n in unit_normals() {
        let sq = |e: Fixed| e.raw() as i128 * e.raw() as i128;
        assert_eq!(sq(n.x()) + sq(n.y()) + sq(n.z()), 1_000_000_000_000);
    }
}

#[test]
fn rounding_can_keep_reflection_from_negating_the_normal_component_exactly() {
    let a = v(3, 0, 0);
    let n = v(600_000, 800_000, 0);
    let r = reflect(a, n);
    assert_eq!(r, v(2, -1, 0));
    assert_eq!(dot(&a, &n).raw(), 1);
    assert_eq!(dot(&r, &n).raw(), 1);
}

#[test]
fn reflection_negates_the_normal_component_up_to_nine_millionths() {
    for n in unit_normals() {
        for i in -6..=6i64 {
            for j in -6..=6i64 {
                let a = v(i * 333_333 + 7, j * 271_828 - 3, (i - j) * 141_421 + 1);
                let r = reflect(a, n);
                let sum = dot(&r, &n).raw() + dot(&a, &n).raw();
                assert!(sum.abs() <= 9, "{sum} for {a:?} in {n:?}");
            }
        }
    }
}

#[test]
fn reflection_keeps_the_squared_length_up_to_rounding() {
    for n in unit_normals() {
        for i in -6..=6i64 {
            for j in -6..=6i64 {
                // Components up to one in magnitude.
                let a = v(i * 166_666, j * 166_666, (i - j) * 83_333);
                let r = reflect(a, n);
                let change = r.length_squared().raw() - a.length_squared().raw();
                assert!(change.abs() <= 81, "{change} for {a:?} in {n:?}");
            }
        }
    }
}

#[test]
fn reflection_of_large_vectors_stays_accurate() {
    let n = v(360_000, 480_000, 800_000);
    let a = v(200_000_000_000, -150_000_000_000, 99_999_999_999);
    let r = reflect(a, n);
    let sum = dot(&r, &n).raw() + dot(&a, &n).raw();
    assert!(sum.abs() <= 9, "{sum}");
}

/// By how much the exact squared length misses one, in millionths of a
/// millionth.
fn unit_defect(u: Vec3) -> i128 {
    let sq = |e: Fixed| e.raw() as i128 * e.raw() as i128;
    sq(u.x()) + sq(u.y()) + sq(u.z()) - 1_000_000_000_000
}

#[test]
fn normalising_gives_unit_length_up_to_six_millionths() {
    let mut checked = 0;
    for scale in [1i64, 7, 1_000, 999_983, 1_000_000_007] {
        for i in -7..=7i64 {
            for j in -7..=7i64 {
                for k in [-3i64, 0, 1, 250] {
                    let a = v(i * scale, j * scale + (i % 2), k * scale);
                    if a != v(0, 0, 0) {
                        let u = unit_vector(a);
                        let defect = unit_defect(u);
                        assert!(-6_000_000 <= defect && defect <= 935, "{defect} for {a:?}");
                        for e in [u.x(), u.y(), u.z()] {
                            assert!(e.raw().abs() <= 1_000_000);
                        }
                        checked += 1;
                    }
                }
            }
        }
    }
    assert!(checked > 4_000);
}

#[test]
fn normalising_does_not_exceed_one_in_a_component() {
    let a = v(1_000_001, 0, 0);
    assert_eq!(a.length().raw(), 1_000_001);
    assert_eq!(unit_vector(a), v(1_000_000, 0, 0));
}

#[test]
fn normalising_a_vector_of_two_thousandths() {
    let a = v(1_999, 0, 0);
    assert_eq!(a.length().raw(), 1_999);
    assert_eq!(unit_vector(a), v(1_000_000, 0, 0));
    assert_eq!(unit_vector(v(1_500, 0, 0)), v(1_000_000, 0, 0));
}

#[test]
fn reflection_about_a_normalised_normal() {
    for i in -5..=5i64 {
        for j in -5..=5i64 {
            let n = unit_vector(v(i * 1_234_567 + 1_000_000, j * 7_654_321, 3_141_592));
            for a in [
                v(1_000_000, -1_000_000, 1_000_000),
                v(-600_000, 0, 800_000),
                v(123_456, 654_321, -999_999),
            ] {
                let r = reflect(a, n);
                let sum = dot(&r, &n).raw() + dot(&a, &n).raw();
                assert!(sum.abs() <= 45, "{sum} for {a:?} in {n:?}");
            }
        }
    }
}
