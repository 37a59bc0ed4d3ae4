use rand::rngs::StdRng;
use rand::SeedableRng;
use raytracer::fixed::Fixed;
use raytracer::random::random_range;
use raytracer::vec3::{
    disk_from_candidate, dot, on_hemisphere, random_in_unit_disk, random_on_hemisphere,
    random_unit_vector, unit_from_candidate, Vec3,
};

fn fx(millionths: i64) -> Fixed {
    Fixed::from_raw(millionths)
}

fn v(x: i64, y: i64, z: i64) -> Vec3 {
    Vec3::new(fx(x), fx(y), fx(z))
}

#[test]
fn drawn_numbers_lie_in_the_range() {
    let mut rng = StdRng::seed_from_u64(1);
    for _ in 0..1000 {
        let x = random_range(&mut rng, fx(-500_000), fx(500_000));
        assert!(-500_000 <= x.raw() && x.raw() < 500_000);
    }
}

#[test]
fn drawn_numbers_are_not_the_lower_bound_again_and_again() {
    let mut rng = StdRng::seed_from_u64(2);
    let mut seen_other = false;
    let mut smallest = i64::MAX;
    let mut largest = i64::MIN;
    for _ in 0..1000 {
        let x = random_range(&mut rng, fx(5_000_000), fx(10_000_000)).raw();
        seen_other = seen_other || x != 5_000_000;
        smallest = smallest.min(x);
        largest = largest.max(x);
    }
    assert!(seen_other);
    assert!(largest - smallest > 4_000_000);
}

#[test]
fn a_range_of_one_count_has_one_member() {
    let mut rng = StdRng::seed_from_u64(3);
    assert_eq!(random_range(&mut rng, fx(7), fx(8)).raw(), 7);
}

#[test]
fn the_same_seed_draws_the_same_numbers() {
    let mut a = StdRng::seed_from_u64(99);
    let mut b = StdRng::seed_from_u64(99);
    for _ in 0..100 {
        assert_eq!(
            random_range(&mut a, fx(0), fx(1_000_000)),
            random_range(&mut b, fx(0), fx(1_000_000))
        );
    }
}

#[test]
fn random_vectors_lie_in_their_box() {
    let mut rng = StdRng::seed_from_u64(4);
    for _ in 0..200 {
        let a = Vec3::random(&mut rng);
        for e in [a.x(), a.y(), a.z()] {
            assert!(0 <= e.raw() && e.raw() < 1_000_000);
        }
        let b = Vec3::random_from_range(&mut rng, fx(-2_000_000), fx(3_000_000));
        for e in [b.x(), b.y(), b.z()] {
            assert!(-2_000_000 <= e.raw() && e.raw() < 3_000_000);
        }
    }
}

#[test]
fn candidates_inside_the_sphere_are_scaled_to_it() {
    assert_eq!(
        unit_from_candidate(v(300_000, 400_000, 0)),
        Some(v(600_000, 800_000, 0))
    );
    assert_eq!(
        unit_from_candidate(v(1_000_000, 0, 0)),
        Some(v(1_000_000, 0, 0))
    );
}

#[test]
fn candidates_outside_the_sphere_or_at_its_centre_are_rejected() {
    assert_eq!(unit_from_candidate(v(800_000, 800_000, 0)), None);
    assert_eq!(unit_from_candidate(v(0, 0, 0)), None);
    // Just outside: the exact squared length is 1.000000000001.
    assert_eq!(unit_from_candidate(v(1_000_000, 1, 0)), None);
}

#[test]
fn the_shortest_candidates_are_normalised_to_unit_length() {
    assert_eq!(unit_from_candidate(v(999, 0, 0)), Some(v(1_000_000, 0, 0)));
    assert_eq!(unit_from_candidate(v(1_999, 0, 0)), Some(v(1_000_000, 0, 0)));
    assert_eq!(unit_from_candidate(v(0, -1, 0)), Some(v(0, -1_000_000, 0)));
    assert_eq!(unit_from_candidate(v(1, 1, 1)), Some(v(577_350, 577_350, 577_350)));
}

#[test]
fn random_unit_vectors_have_unit_length_up_to_rounding() {
    let mut rng = StdRng::seed_from_u64(5);
    for _ in 0..500 {
        let u = random_unit_vector(&mut rng);
        let sq = |e: Fixed| e.raw() as i128 * e.raw() as i128;
        let defect = sq(u.x()) + sq(u.y()) + sq(u.z()) - 1_000_000_000_000;
        assert!(-6_000_000 <= defect && defect <= 935, "defect {defect}");
        for e in [u.x(), u.y(), u.z()] {
            assert!(e.raw().abs() <= 1_000_000);
        }
    }
}

#[test]
fn disk_candidates() {
    assert_eq!(
        disk_from_candidate(v(600_000, -700_000, 0)),
        Some(v(600_000, -700_000, 0))
    );
    assert_eq!(disk_from_candidate(v(0, 0, 0)), Some(v(0, 0, 0)));
    // On the rim: squared length exactly one.
    assert_eq!(disk_from_candidate(v(600_000, 800_000, 0)), None);
    assert_eq!(disk_from_candidate(v(900_000, 900_000, 0)), None);
}

#[test]
fn random_disk_points_lie_in_the_disk() {
    let mut rng = StdRng::seed_from_u64(6);
    for _ in 0..500 {
        let p = random_in_unit_disk(&mut rng);
        assert_eq!(p.z().raw(), 0);
        assert!(p.length_squared().raw() < 1_000_000);
    }
}

#[test]
fn vectors_are_turned_into_the_hemisphere() {
    let normal = v(0, 1_000_000, 0);
    assert_eq!(
        on_hemisphere(&normal, v(600_000, -800_000, 0)),
        v(-600_000, 800_000, 0)
    );
    assert_eq!(
        on_hemisphere(&normal, v(600_000, 800_000, 0)),
        v(600_000, 800_000, 0)
    );
    assert_eq!(
        on_hemisphere(&normal, v(1_000_000, 0, 0)),
        v(1_000_000, 0, 0)
    );
}

#[test]
fn random_hemisphere_vectors_do_not_point_away_from_the_normal() {
    let mut rng = StdRng::seed_from_u64(7);
    let normal = v(577_350, 577_350, 577_350);
    for _ in 0..500 {
        let u = random_on_hemisphere(&normal, &mut rng);
        assert!(dot(&normal, &u).raw() >= 0);
    }
}
