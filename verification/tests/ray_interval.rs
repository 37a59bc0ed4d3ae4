use raytracer::fixed::{Fixed, MAX_RAW};
use raytracer::interval::Interval;
use raytracer::ray::Ray;
use raytracer::vec3::Vec3;

fn fx(millionths: i64) -> Fixed {
    Fixed::from_raw(millionths)
}

fn v(x: i64, y: i64, z: i64) -> Vec3 {
    Vec3::new(fx(x), fx(y), fx(z))
}

#[test]
fn a_ray_keeps_its_origin_and_direction() {
    let r = Ray::new(v(1, 2, 3), v(4, 5, 6));
    assert_eq!(r.origin(), v(1, 2, 3));
    assert_eq!(r.direction(), v(4, 5, 6));
}

#[test]
fn points_along_a_ray() {
    let r = Ray::new(v(1_000_000, 2_000_000, 3_000_000), v(0, -1_000_000, 2_000_000));
    assert_eq!(r.at(fx(0)), v(1_000_000, 2_000_000, 3_000_000));
    assert_eq!(r.at(fx(1_000_000)), v(1_000_000, 1_000_000, 5_000_000));
    assert_eq!(r.at(fx(2_500_000)), v(1_000_000, -500_000, 8_000_000));
    assert_eq!(r.at(fx(-1_000_000)), v(1_000_000, 3_000_000, 1_000_000));
}

#[test]
fn size_of_an_interval() {
    assert_eq!(Interval::new(fx(2), fx(10)).size().raw(), 8);
    assert_eq!(Interval::new(fx(10), fx(2)).size().raw(), -8);
    assert_eq!(Interval::universe().size().raw(), MAX_RAW);
    assert_eq!(Interval::empty().size().raw(), -MAX_RAW);
}

#[test]
fn contains_includes_the_bounds() {
    let i = Interval::new(fx(2), fx(10));
    assert!(i.contains(fx(2)));
    assert!(i.contains(fx(10)));
    assert!(i.contains(fx(5)));
    assert!(!i.contains(fx(1)));
    assert!(!i.contains(fx(11)));
}

#[test]
fn surrounds_excludes_the_bounds() {
    let i = Interval::new(fx(2), fx(10));
    assert!(!i.surrounds(fx(2)));
    assert!(!i.surrounds(fx(10)));
    assert!(i.surrounds(fx(3)));
    assert!(i.surrounds(fx(9)));
    assert!(!i.surrounds(fx(1)));
}

#[test]
fn clamp_moves_to_the_nearest_bound() {
    let i = Interval::new(fx(0), fx(999_000));
    assert_eq!(i.clamp(fx(-5)).raw(), 0);
    assert_eq!(i.clamp(fx(1_000_000)).raw(), 999_000);
    assert_eq!(i.clamp(fx(500_000)).raw(), 500_000);
    assert_eq!(i.clamp(fx(0)).raw(), 0);
    assert_eq!(i.clamp(fx(999_000)).raw(), 999_000);
}

#[test]
fn the_empty_interval_holds_nothing() {
    let e = Interval::empty();
    assert_eq!(e.min.raw(), MAX_RAW);
    assert_eq!(e.max.raw(), -MAX_RAW);
    for x in [-MAX_RAW, -1, 0, 1, MAX_RAW] {
        assert!(!e.contains(fx(x)));
        assert!(!e.surrounds(fx(x)));
    }
}

#[test]
fn the_universe_holds_everything_and_surrounds_all_but_the_extremes() {
    let u = Interval::universe();
    assert_eq!(u.min.raw(), -MAX_RAW);
    assert_eq!(u.max.raw(), MAX_RAW);
    for x in [-MAX_RAW, -1, 0, 1, MAX_RAW] {
        assert!(u.contains(fx(x)));
    }
    assert!(u.surrounds(fx(0)));
    assert!(!u.surrounds(fx(MAX_RAW)));
    assert!(!u.surrounds(fx(-MAX_RAW)));
}

#[test]
fn intervals_compare_by_their_bounds() {
    assert_eq!(Interval::new(fx(1), fx(2)), Interval::new(fx(1), fx(2)));
    assert_ne!(Interval::new(fx(1), fx(2)), Interval::new(fx(1), fx(3)));
}
