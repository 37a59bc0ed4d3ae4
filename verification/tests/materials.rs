use rand::rngs::StdRng;
use rand::SeedableRng;
use raytracer::fixed::Fixed;
use raytracer::hit::HitRecord;
use raytracer::material::{
    reflectance, AnyMaterial, Dielectric, Lambertian, Material, Metal, ScatterResult,
};
use raytracer::ray::Ray;
use raytracer::vec3::{dot, unit_vector, Vec3};

fn fx(millionths: i64) -> Fixed {
    Fixed::from_raw(millionths)
}

fn v(x: i64, y: i64, z: i64) -> Vec3 {
    Vec3::new(fx(x), fx(y), fx(z))
}

fn white() -> Vec3 {
    v(1_000_000, 1_000_000, 1_000_000)
}

/// A hit at `(1, 2, 3)` on a surface whose normal points along `z`.
fn hit(front_face: bool) -> HitRecord {
    HitRecord {
        p: v(1_000_000, 2_000_000, 3_000_000),
        normal: v(0, 0, 1_000_000),
        t: fx(2_000_000),
        front_face,
        mat: AnyMaterial::Dielectric(Dielectric::new(fx(1_000_000))),
    }
}

fn ray(x: i64, y: i64, z: i64) -> Ray {
    Ray::new(v(0, 0, 10_000_000), v(x, y, z))
}

fn with(m: &impl Material, r: &Ray, rec: &HitRecord, unit: Vec3, uniform: i64) -> ScatterResult {
    m.scatter_with(r, rec, unit, fx(uniform)).unwrap()
}

#[test]
fn a_diffuse_surface_scatters_about_the_normal() {
    let m = Lambertian::new(v(100_000, 200_000, 300_000));
    let s = with(&m, &ray(0, 0, -1_000_000), &hit(true), v(600_000, 0, 800_000), 0);
    assert_eq!(s.attenuation, v(100_000, 200_000, 300_000));
    assert_eq!(s.scattered.origin(), v(1_000_000, 2_000_000, 3_000_000));
    assert_eq!(s.scattered.direction(), v(600_000, 0, 1_800_000));
}

#[test]
fn a_diffuse_scatter_that_nearly_vanishes_follows_the_normal() {
    let m = Lambertian::new(v(100_000, 200_000, 300_000));
    let r = ray(0, 0, -1_000_000);
    let s = with(&m, &r, &hit(true), v(0, 0, -1_000_000), 0);
    assert_eq!(s.scattered.direction(), v(0, 0, 1_000_000));
    let s = with(&m, &r, &hit(true), v(500, -999, -999_500), 0);
    assert_eq!(s.scattered.direction(), v(0, 0, 1_000_000));
    // A thousandth in one component is enough to keep the sum.
    let s = with(&m, &r, &hit(true), v(1_000, 0, -1_000_000), 0);
    assert_eq!(s.scattered.direction(), v(1_000, 0, 0));
}

#[test]
fn a_diffuse_surface_never_absorbs_and_tints_by_its_albedo() {
    let albedo = v(123_456, 654_321, 999_999);
    let m = Lambertian::new(albedo);
    let mut rng = StdRng::seed_from_u64(11);
    for i in 0..200 {
        let r = ray(i * 1_000, -3_000, -1_000_000);
        let s = m.scatter(&r, &hit(i % 2 == 0), &mut rng).unwrap();
        assert_eq!(s.attenuation, albedo);
        assert_eq!(s.scattered.origin(), v(1_000_000, 2_000_000, 3_000_000));
        // The normal plus a unit vector is at most two long.
        assert!(s.scattered.direction().length_squared().raw() <= 4_001_000);
    }
}

#[test]
fn a_polished_metal_mirrors() {
    let m = Metal::new(v(800_000, 800_000, 800_000), fx(0));
    let s = with(&m, &ray(0, 0, -1_000_000), &hit(true), v(1_000_000, 0, 0), 0);
    assert_eq!(s.attenuation, v(800_000, 800_000, 800_000));
    assert_eq!(s.scattered.origin(), v(1_000_000, 2_000_000, 3_000_000));
    assert_eq!(s.scattered.direction(), v(0, 0, 1_000_000));
}

#[test]
fn fuzz_perturbs_the_unit_mirror_direction() {
    let m = Metal::new(v(800_000, 800_000, 800_000), fx(500_000));
    let s = with(&m, &ray(1_000_000, 0, -1_000_000), &hit(true), v(0, 1_000_000, 0), 0);
    assert_eq!(s.scattered.direction(), v(707_106, 500_000, 707_106));
}

#[test]
fn fuzz_above_one_counts_as_one() {
    let m = Metal::new(v(800_000, 800_000, 800_000), fx(7_000_000));
    assert_eq!(m, Metal::new(v(800_000, 800_000, 800_000), fx(1_000_000)));
    let s = with(&m, &ray(3_000_000, 0, -4_000_000), &hit(true), v(600_000, 0, -800_000), 0);
    // unit(3, 0, 4) + 1 * (0.6, 0, -0.8): the ray is reported although it
    // runs along the surface.
    assert_eq!(s.scattered.direction(), v(1_200_000, 0, 0));
}

#[test]
fn fuzz_between_zero_and_one_is_kept() {
    assert_ne!(
        Metal::new(white(), fx(999_999)),
        Metal::new(white(), fx(1_000_000))
    );
    assert_ne!(Metal::new(white(), fx(1)), Metal::new(white(), fx(0)));
}

#[test]
fn fuzz_below_zero_counts_as_zero() {
    assert_eq!(Metal::new(white(), fx(-1)), Metal::new(white(), fx(0)));
    assert_eq!(
        Metal::new(white(), fx(-1_000_000)),
        Metal::new(white(), fx(0))
    );
    assert_eq!(Metal::new(white(), fx(i64::MIN)), Metal::new(white(), fx(0)));
    let m = Metal::new(white(), fx(-1_000_000));
    let s = with(&m, &ray(0, 0, -1_000_000), &hit(true), v(1_000_000, 0, 0), 0);
    assert_eq!(s.scattered.direction(), v(0, 0, 1_000_000));
}

#[test]
fn a_metal_scatters_within_its_fuzz_of_the_mirror_direction() {
    let mut rng = StdRng::seed_from_u64(15);
    let r = ray(300_000, -200_000, -1_000_000);
    let mirror = with(
        &Metal::new(white(), fx(0)),
        &r,
        &hit(true),
        v(1_000_000, 0, 0),
        0,
    )
    .scattered
    .direction();
    for fuzz in [0, 1, 250_000, 1_000_000, 5_000_000] {
        let m = Metal::new(white(), fx(fuzz));
        let bound = fuzz.min(1_000_000) as i128;
        for _ in 0..100 {
            let off = m
                .scatter(&r, &hit(true), &mut rng)
                .unwrap()
                .scattered
                .direction()
                .sub(mirror);
            let sq = |e: Fixed| e.raw() as i128 * e.raw() as i128;
            let lensq = sq(off.x()) + sq(off.y()) + sq(off.z());
            assert!(
                1_000_000_000_000 * lensq <= bound * bound * 1_000_000_000_935,
                "{off:?} for fuzz {fuzz}"
            );
        }
    }
}

#[test]
fn a_metal_always_reports_a_scattered_ray() {
    let m = Metal::new(v(700_000, 600_000, 500_000), fx(1_000_000));
    let mut rng = StdRng::seed_from_u64(12);
    for i in 0..200 {
        let r = ray(i * 10_000, 0, -1_000_000);
        let s = m.scatter(&r, &hit(true), &mut rng).unwrap();
        assert_eq!(s.attenuation, v(700_000, 600_000, 500_000));
    }
}

#[test]
fn schlick_reflectance() {
    // r0 = ((1 - 1.5) / (1 + 1.5))^2 = 0.04
    assert_eq!(reflectance(fx(1_000_000), fx(1_500_000)).raw(), 40_000);
    assert_eq!(reflectance(fx(0), fx(1_500_000)).raw(), 1_000_000);
    // 0.04 + 0.96 * 0.5^5
    assert_eq!(reflectance(fx(500_000), fx(1_500_000)).raw(), 70_000);
    // equal indices: r0 = 0, leaving (1 - cosine)^5
    assert_eq!(reflectance(fx(500_000), fx(1_000_000)).raw(), 31_250);
    assert_eq!(reflectance(fx(1_000_000), fx(1_000_000)).raw(), 0);
}

#[test]
fn glass_struck_straight_on_refracts_or_reflects_by_the_draw() {
    let m = Dielectric::new(fx(1_500_000));
    let r = ray(0, 0, -1_000_000);
    // reflectance 0.04
    let s = with(&m, &r, &hit(true), v(0, 0, 0), 500_000);
    assert_eq!(s.attenuation, white());
    assert_eq!(s.scattered.origin(), v(1_000_000, 2_000_000, 3_000_000));
    assert_eq!(s.scattered.direction(), v(0, 0, -1_000_000));
    let s = with(&m, &r, &hit(true), v(0, 0, 0), 40_000);
    assert_eq!(s.scattered.direction(), v(0, 0, -1_000_000));
    let s = with(&m, &r, &hit(true), v(0, 0, 0), 39_999);
    assert_eq!(s.attenuation, white());
    assert_eq!(s.scattered.direction(), v(0, 0, 1_000_000));
}

#[test]
fn glass_bends_an_entering_ray_toward_the_normal() {
    let m = Dielectric::new(fx(1_500_000));
    let s = with(&m, &ray(1_000_000, 0, -1_000_000), &hit(true), v(0, 0, 0), 500_000);
    assert_eq!(s.scattered.direction(), v(471_403, 0, -881_918));
}

#[test]
fn glass_reflects_totally_from_inside_at_a_shallow_angle() {
    let m = Dielectric::new(fx(1_500_000));
    // sin = 0.707 and 1.5 * 0.707 > 1: no draw can make it refract.
    let s = with(&m, &ray(1_000_000, 0, -1_000_000), &hit(false), v(0, 0, 0), 999_999);
    assert_eq!(s.scattered.direction(), v(707_106, 0, 707_106));
}

#[test]
fn glass_lets_a_steep_ray_out() {
    let m = Dielectric::new(fx(1_500_000));
    let s = with(&m, &ray(1_000_000, 0, -3_000_000), &hit(false), v(0, 0, 0), 999_999);
    assert_eq!(s.scattered.direction(), v(474_340, 0, -880_341));
}

#[test]
fn an_index_of_one_never_reflects_totally_and_hardly_bends() {
    let m = Dielectric::new(fx(1_000_000));
    for front_face in [true, false] {
        for x in [0, 500_000, 1_000_000, 5_000_000, 50_000_000] {
            let r = ray(x, 0, -1_000_000);
            // The largest draw: only total reflection could reflect.
            let s = with(&m, &r, &hit(front_face), v(0, 0, 0), 999_999);
            let straight = unit_vector(r.direction());
            let out = s.scattered.direction();
            assert!(dot(&out, &hit(front_face).normal).raw() <= 0, "reflected");
            let off = out.sub(straight);
            assert!(off.x().raw().abs() <= 25, "bent by {off:?}");
            assert!(off.y().raw().abs() <= 25, "bent by {off:?}");
            assert!(off.z().raw().abs() <= 25, "bent by {off:?}");
        }
    }
    let s = with(&m, &ray(1_000_000, 0, -1_000_000), &hit(true), v(0, 0, 0), 500_000);
    assert_eq!(s.scattered.direction(), v(707_106, 0, -707_108));
}

#[test]
fn an_index_of_one_still_reflects_when_the_draw_is_below_the_reflectance() {
    let m = Dielectric::new(fx(1_000_000));
    let r = ray(5_000_000, 0, -1_000_000);
    // The reflectance at this grazing angle is 0.335711.
    let s = with(&m, &r, &hit(false), v(0, 0, 0), 335_711);
    assert_eq!(s.scattered.direction(), v(980_580, 0, -196_119));
    let s = with(&m, &r, &hit(false), v(0, 0, 0), 335_710);
    assert_eq!(s.scattered.direction(), v(980_580, 0, 196_116));
}

#[test]
fn glass_absorbs_nothing() {
    let m = Dielectric::new(fx(1_500_000));
    let mut rng = StdRng::seed_from_u64(13);
    let mut reflected = 0;
    let mut refracted = 0;
    for _ in 0..400 {
        let r = ray(1_000_000, 0, -1_000_000);
        let s = m.scatter(&r, &hit(true), &mut rng).unwrap();
        assert_eq!(s.attenuation, white());
        if s.scattered.direction() == v(471_403, 0, -881_918) {
            refracted += 1;
        } else {
            assert_eq!(s.scattered.direction(), v(707_106, 0, 707_106));
            reflected += 1;
        }
    }
    // The reflectance is 0.042: a few reflections, mostly refraction.
    assert!(reflected > 0 && reflected < 60, "{reflected} reflected");
    assert!(refracted > 340);
}

#[test]
fn the_union_scatters_as_its_member_does() {
    let r = ray(1_000_000, 0, -1_000_000);
    let unit = v(0, 1_000_000, 0);
    let l = Lambertian::new(v(100_000, 200_000, 300_000));
    let m = Metal::new(v(800_000, 800_000, 800_000), fx(500_000));
    let d = Dielectric::new(fx(1_500_000));
    assert_eq!(
        AnyMaterial::Lambertian(l).scatter_with(&r, &hit(true), unit, fx(500_000)),
        l.scatter_with(&r, &hit(true), unit, fx(500_000))
    );
    assert_eq!(
        AnyMaterial::Metal(m).scatter_with(&r, &hit(true), unit, fx(500_000)),
        m.scatter_with(&r, &hit(true), unit, fx(500_000))
    );
    assert_eq!(
        AnyMaterial::Dielectric(d).scatter_with(&r, &hit(true), unit, fx(500_000)),
        d.scatter_with(&r, &hit(true), unit, fx(500_000))
    );
}

#[test]
fn the_union_draws_as_its_member_does() {
    let r = ray(1_000_000, 0, -1_000_000);
    let l = Lambertian::new(v(100_000, 200_000, 300_000));
    let mut a = StdRng::seed_from_u64(14);
    let mut b = StdRng::seed_from_u64(14);
    for _ in 0..50 {
        assert_eq!(
            AnyMaterial::Lambertian(l).scatter(&r, &hit(true), &mut a),
            l.scatter(&r, &hit(true), &mut b)
        );
    }
}

#[test]
fn an_index_of_one_bends_a_grazing_ray_by_less_than_nine_thousandths() {
    let m = Dielectric::new(fx(1_000_000));
    for front_face in [true, false] {
        for (x, y) in [
            (1_000_000_000i64, 0i64),
            (1_000_000, 1),
            (1_000_000, -1_000_000_000),
            (123_456_789, 987_654_321),
            (0, 0),
            (-700_000, 1),
        ] {
            for z in [-1i64, -1_000, -1_000_000] {
                let r = ray(x, y, z);
                let s = with(&m, &r, &hit(front_face), v(0, 0, 0), 999_999);
                let out = s.scattered.direction();
                if dot(&out, &hit(front_face).normal).raw() <= 0 {
                    let off = out.sub(unit_vector(r.direction()));
                    for e in [off.x(), off.y(), off.z()] {
                        assert!(e.raw().abs() <= 8_065, "bent by {off:?} for {r:?}");
                    }
                }
            }
        }
    }
}
