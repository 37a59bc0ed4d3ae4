use rand::rngs::StdRng;
use rand::SeedableRng;
use raytracer::camera::{background, image_rows, BounceDraw, Camera, SampleDraws};
use raytracer::color::{write_color, Color};
use raytracer::fixed::Fixed;
use raytracer::hit::HittableList;
use raytracer::material::{AnyMaterial, Dielectric, Lambertian, Metal};
use raytracer::ray::Ray;
use raytracer::sphere::Sphere;
use raytracer::random::random_range;
use raytracer::vec3::{random_in_unit_disk, random_unit_vector, Vec3};

fn fx(millionths: i64) -> Fixed {
    Fixed::from_raw(millionths)
}

fn v(x: i64, y: i64, z: i64) -> Vec3 {
    Vec3::new(fx(x), fx(y), fx(z))
}

fn black() -> Color {
    v(0, 0, 0)
}

/// Looks from the origin along -z at a 4 by 2 image one unit away, with a
/// field of view of 90 degrees and a lens without extent.
fn simple(samples_per_pixel: u64, max_depth: u64) -> Camera {
    Camera::new(
        fx(2_000_000),
        4,
        samples_per_pixel,
        max_depth,
        fx(1_000_000),
        v(0, 0, 0),
        v(0, 0, -1_000_000),
        v(0, 1_000_000, 0),
        fx(0),
        fx(1_000_000),
    )
}

/// Looks down a diagonal, with a lens of some extent.
fn tilted() -> Camera {
    Camera::new(
        fx(1_500_000),
        30,
        4,
        10,
        fx(500_000),
        v(3_000_000, 3_000_000, 2_000_000),
        v(0, 0, -1_000_000),
        v(0, 1_000_000, 0),
        fx(100_000),
        fx(5_200_000),
    )
}

fn two_spheres() -> HittableList<Sphere> {
    let mut world = HittableList::new();
    world.add(Sphere::new(
        v(0, -100_500_000, -1_000_000),
        fx(100_000_000),
        AnyMaterial::Lambertian(Lambertian::new(v(800_000, 800_000, 0))),
    ));
    world.add(Sphere::new(
        v(0, 0, -1_000_000),
        fx(500_000),
        AnyMaterial::Lambertian(Lambertian::new(v(700_000, 300_000, 300_000))),
    ));
    world
}

fn nothing() -> HittableList<Sphere> {
    HittableList::new()
}

#[test]
fn rows_are_the_width_over_the_aspect_ratio_rounded_down() {
    let sixteen_to_nine = Fixed::from_int(16).div(Fixed::from_int(9));
    assert_eq!(image_rows(1200, sixteen_to_nine), 675);
    assert_eq!(image_rows(400, sixteen_to_nine), 225);
    assert_eq!(image_rows(100, fx(500_000)), 200);
    assert_eq!(image_rows(3, fx(2_000_000)), 1);
}

#[test]
fn an_image_has_at_least_one_row() {
    assert_eq!(image_rows(1, fx(2_000_000)), 1);
    assert_eq!(image_rows(0, fx(1_000_000)), 1);
    assert_eq!(image_rows(100, fx(-1_000_000)), 1);
}

#[test]
fn the_default_camera() {
    let cam = Camera::default();
    assert_eq!(cam.aspect_ratio().raw(), 1_777_777);
    assert_eq!(cam.aspect_ratio, cam.aspect_ratio());
    assert_eq!(cam.image_width, cam.image_width());
    assert_eq!(cam.image_width(), 1200);
    assert_eq!(cam.image_height(), 675);
    let zero = v(0, 0, 0);
    // With the origin as the start, the direction is the point looked at.
    assert_eq!(
        cam.pixel_ray(0, 0, zero, zero).direction(),
        v(-545_628, 525_782, -1_960_379)
    );
    assert_eq!(
        cam.pixel_ray(1199, 674, zero, zero).direction(),
        v(471_666, -451_518, 34_215)
    );
    assert_eq!(
        cam.pixel_ray(600, 337, zero, zero).direction(),
        v(-36_353, 37_132, -962_454)
    );
    assert_eq!(
        cam.defocus_disk_point(v(500_000, -500_000, 0)),
        v(-1_955_550, 1_878_563, 1_165_886)
    );
}

#[test]
fn the_viewport_of_a_simple_camera() {
    let cam = simple(10, 5);
    assert_eq!(cam.image_width(), 4);
    assert_eq!(cam.image_height(), 2);
    let zero = v(0, 0, 0);
    let r = cam.pixel_ray(0, 0, zero, zero);
    assert_eq!(r.origin(), zero);
    assert_eq!(r.direction(), v(-1_500_000, 500_000, -1_000_000));
    assert_eq!(
        cam.pixel_ray(3, 1, zero, zero).direction(),
        v(1_500_000, -500_000, -1_000_000)
    );
    assert_eq!(
        cam.pixel_ray(1, 1, v(250_000, -500_000, 0), zero).direction(),
        v(-250_000, 0, -1_000_000)
    );
    // From another start the direction changes, the point looked at does not.
    let from = v(1_000_000, 1_000_000, 1_000_000);
    let r = cam.pixel_ray(0, 0, zero, from);
    assert_eq!(r.origin(), from);
    assert_eq!(r.direction(), v(-2_500_000, -500_000, -2_000_000));
}

#[test]
fn without_a_defocus_angle_the_defocus_disk_is_a_point() {
    let cam = simple(10, 5);
    assert_eq!(cam.defocus_disk_point(v(900_000, -300_000, 0)), v(0, 0, 0));
}

#[test]
fn the_viewport_of_a_tilted_camera() {
    let cam = tilted();
    assert_eq!(cam.image_height(), 20);
    let zero = v(0, 0, 0);
    assert_eq!(
        cam.pixel_ray(0, 0, zero, zero).direction(),
        v(-3_676_380, 2_014_520, 655_200)
    );
    assert_eq!(
        cam.pixel_ray(7, 11, v(100_000, -300_000, 0), zero).direction(),
        v(-1_235_327, -256_961, 485_627)
    );
    assert_eq!(
        cam.defocus_disk_point(v(300_000, 400_000, 0)),
        v(3_025_393, 3_169_830, 1_804_777)
    );
}

#[test]
fn sample_offsets_stay_within_the_pixel() {
    let cam = simple(10, 5);
    let mut rng = StdRng::seed_from_u64(21);
    let mut left = false;
    let mut right = false;
    for _ in 0..500 {
        let o = cam.sample_square(&mut rng);
        assert!(-500_000 <= o.x().raw() && o.x().raw() < 500_000);
        assert!(-500_000 <= o.y().raw() && o.y().raw() < 500_000);
        assert_eq!(o.z().raw(), 0);
        left = left || o.x().raw() < -250_000;
        right = right || o.x().raw() > 250_000;
    }
    assert!(left && right);
}

#[test]
fn sample_rays_start_at_the_centre_of_a_lens_without_extent() {
    let cam = simple(10, 5);
    let mut rng = StdRng::seed_from_u64(22);
    for _ in 0..200 {
        let r = cam.get_ray(2, 1, &mut rng);
        assert_eq!(r.origin(), v(0, 0, 0));
        let d = r.direction();
        // Pixel (2, 1) is centred on (0.5, -0.5, -1) and one unit wide.
        assert!(0 <= d.x().raw() && d.x().raw() < 1_000_000);
        assert!(-1_000_000 < d.y().raw() && d.y().raw() <= 0);
        assert_eq!(d.z().raw(), -1_000_000);
    }
}

#[test]
fn sample_rays_start_on_the_defocus_disk_of_a_lens_with_extent() {
    let cam = tilted();
    let centre = v(3_000_000, 3_000_000, 2_000_000);
    let mut rng = StdRng::seed_from_u64(23);
    let mut moved = false;
    for _ in 0..200 {
        let r = cam.get_ray(10, 10, &mut rng);
        let off = r.origin().sub(centre);
        // The disk has the radius 5.2 * 0.1.
        assert!(off.length_squared().raw() <= 270_500, "{off:?}");
        moved = moved || off != v(0, 0, 0);
        let p = cam.defocus_disk_sample(&mut rng).sub(centre);
        assert!(p.length_squared().raw() <= 270_500, "{p:?}");
    }
    assert!(moved);
}

#[test]
fn the_sky_is_white_at_the_horizon_below_and_blue_above() {
    let from = v(0, 0, 0);
    assert_eq!(
        background(&Ray::new(from, v(0, 2_000_000, 0))),
        v(500_000, 700_000, 1_000_000)
    );
    assert_eq!(
        background(&Ray::new(from, v(0, -1_000_000, 0))),
        v(1_000_000, 1_000_000, 1_000_000)
    );
    assert_eq!(
        background(&Ray::new(from, v(0, 0, -1_000_000))),
        v(750_000, 850_000, 1_000_000)
    );
    assert_eq!(
        background(&Ray::new(from, v(-1_500_000, 500_000, -1_000_000))),
        v(683_185, 809_911, 1_000_000)
    );
}

#[test]
fn the_sky_of_a_ray_without_direction_is_that_of_the_horizon() {
    let from = v(0, 0, 0);
    assert_eq!(
        background(&Ray::new(from, v(0, 0, 0))),
        v(750_000, 850_000, 1_000_000)
    );
}

#[test]
fn the_sky_of_the_shortest_ray_upwards_is_blue() {
    let from = v(0, 0, 0);
    assert_eq!(
        background(&Ray::new(from, v(0, 1, 0))),
        v(500_000, 700_000, 1_000_000)
    );
}

#[test]
fn a_camera_close_to_its_target_has_a_unit_basis() {
    let cam = Camera::new(
        fx(2_000_000),
        4,
        1,
        1,
        fx(1_000_000),
        v(1_999, 0, 0),
        v(0, 0, 0),
        v(0, 1_000_000, 0),
        fx(0),
        fx(1_000_000),
    );
    let zero = v(0, 0, 0);
    // w = (1, 0, 0): the centre of the image lies one unit along -w.
    let a = cam.pixel_ray(1, 0, v(500_000, 500_000, 0), zero).direction();
    assert_eq!(a, v(-998_001, 0, 0));
}

#[test]
fn without_bounces_left_every_ray_is_black() {
    let cam = simple(1, 0);
    let mut rng = StdRng::seed_from_u64(24);
    let world = two_spheres();
    let empty = nothing();
    for i in -5..=5 {
        for j in -5..=5 {
            let r = Ray::new(v(0, 0, 0), v(i * 200_000, j * 200_000, -1_000_000));
            assert_eq!(cam.ray_color(&r, 0, &world, &mut rng), black());
            assert_eq!(cam.ray_color(&r, 0, &empty, &mut rng), black());
        }
    }
}

#[test]
fn a_camera_without_bounces_renders_black() {
    let cam = simple(3, 0);
    let mut rng = StdRng::seed_from_u64(25);
    let image = cam.render(&two_spheres(), &mut rng);
    assert_eq!(image.len(), 2);
    for row in &image {
        assert_eq!(row.len(), 4);
        for pixel in row {
            assert_eq!(*pixel, black());
            assert_eq!(write_color(pixel), "0 0 0");
        }
    }
}

#[test]
fn a_ray_that_strikes_nothing_has_the_colour_of_the_sky() {
    let cam = simple(1, 50);
    let mut rng = StdRng::seed_from_u64(26);
    let empty = nothing();
    let world = two_spheres();
    let up = Ray::new(v(0, 0, 0), v(300_000, 1_000_000, -200_000));
    assert_eq!(cam.ray_color(&up, 50, &empty, &mut rng), background(&up));
    assert_eq!(cam.ray_color(&up, 1, &empty, &mut rng), background(&up));
    // Above both spheres.
    assert_eq!(cam.ray_color(&up, 50, &world, &mut rng), background(&up));
}

#[test]
fn a_surface_closer_than_the_shadow_bias_is_not_struck() {
    let cam = simple(1, 10);
    let mut rng = StdRng::seed_from_u64(27);
    let mut world = HittableList::new();
    // The ray starts on the sphere: the roots are 0 and -1.
    world.add(Sphere::new(
        v(0, 0, 500_000),
        fx(500_000),
        AnyMaterial::Lambertian(Lambertian::new(v(0, 0, 0))),
    ));
    let r = Ray::new(v(0, 0, 0), v(0, 0, -1_000_000));
    assert_eq!(cam.ray_color(&r, 10, &world, &mut rng), background(&r));
}

#[test]
fn the_last_bounce_ends_in_black() {
    let cam = simple(1, 1);
    let mut rng = StdRng::seed_from_u64(28);
    let r = Ray::new(v(0, 0, 0), v(0, 0, -1_000_000));
    assert_eq!(cam.ray_color(&r, 1, &two_spheres(), &mut rng), black());
}

#[test]
fn a_mirror_tints_what_it_shows() {
    let cam = simple(1, 2);
    let mut rng = StdRng::seed_from_u64(29);
    let mut world = HittableList::new();
    world.add(Sphere::new(
        v(0, 0, -1_000_000),
        fx(500_000),
        AnyMaterial::Metal(Metal::new(v(800_000, 600_000, 400_000), fx(0))),
    ));
    let r = Ray::new(v(0, 0, 0), v(0, 0, -1_000_000));
    // Straight back into the sky at the horizon, (0.75, 0.85, 1), times the albedo.
    assert_eq!(
        cam.ray_color(&r, 2, &world, &mut rng),
        v(600_000, 510_000, 400_000)
    );
    assert_eq!(
        cam.ray_color(&r, 50, &world, &mut rng),
        v(600_000, 510_000, 400_000)
    );
}

#[test]
fn attenuations_multiply_along_the_path() {
    let cam = simple(1, 3);
    let mut rng = StdRng::seed_from_u64(30);
    let mut world = HittableList::new();
    let glass = AnyMaterial::Dielectric(Dielectric::new(fx(1_000_000)));
    let mirror = AnyMaterial::Metal(Metal::new(v(500_000, 500_000, 500_000), fx(0)));
    // Two mirrors facing each other along z, the camera between them.
    world.add(Sphere::new(v(0, 0, -3_000_000), fx(1_000_000), mirror));
    world.add(Sphere::new(v(0, 0, 3_000_000), fx(1_000_000), mirror));
    world.add(Sphere::new(v(50_000_000, 0, 0), fx(1_000_000), glass));
    let r = Ray::new(v(0, 0, 0), v(0, 0, -1_000_000));
    // Two bounces of 0.5 each, then no bounce is left.
    assert_eq!(cam.ray_color(&r, 2, &world, &mut rng), black());
    // With a third mirror removed the second bounce reaches the sky.
    let mut open = HittableList::new();
    open.add(Sphere::new(v(0, 0, -3_000_000), fx(1_000_000), mirror));
    assert_eq!(
        cam.ray_color(&r, 3, &open, &mut rng),
        v(375_000, 425_000, 500_000)
    );
}

#[test]
fn a_pixel_is_the_mean_of_its_samples_not_their_sum() {
    let empty = nothing();
    let mut rng = StdRng::seed_from_u64(31);
    // The blue of the sky is one in every direction.
    let c = simple(4, 5).pixel_color(1, 0, &empty, &mut rng);
    assert_eq!(c.z().raw(), 1_000_000);
    assert!(c.x().raw() <= 1_000_000 && c.y().raw() <= 1_000_000);
    // One third rounds to 0.333333.
    let c = simple(3, 5).pixel_color(1, 0, &empty, &mut rng);
    assert_eq!(c.z().raw(), 999_999);
    let c = simple(1, 5).pixel_color(1, 0, &empty, &mut rng);
    assert_eq!(c.z().raw(), 1_000_000);
}

#[test]
fn the_mean_over_many_samples_of_sky_approaches_the_gradient() {
    let empty = nothing();
    let mut rng = StdRng::seed_from_u64(32);
    let cam = Camera::new(
        fx(2_000_000),
        400,
        1000,
        5,
        fx(1_000_000),
        v(0, 0, 0),
        v(0, 0, -1_000_000),
        v(0, 1_000_000, 0),
        fx(0),
        fx(1_000_000),
    );
    let zero = v(0, 0, 0);
    for (i, j) in [(0u64, 0u64), (200, 100), (399, 199), (17, 150)] {
        let mean = cam.pixel_color(i, j, &empty, &mut rng);
        let centre = background(&cam.pixel_ray(i, j, zero, zero));
        let off = mean.sub(centre);
        // The pixel is a hundredth wide: the gradient hardly varies in it.
        assert!(off.x().raw().abs() <= 1_500, "{off:?}");
        assert!(off.y().raw().abs() <= 1_500, "{off:?}");
        assert!(off.z().raw().abs() <= 1_500, "{off:?}");
    }
}

#[test]
fn a_row_has_one_pixel_for_each_column() {
    let cam = simple(2, 4);
    let mut rng = StdRng::seed_from_u64(33);
    let row = cam.render_row(1, &two_spheres(), &mut rng);
    assert_eq!(row.len(), 4);
    for pixel in &row {
        for e in [pixel.x(), pixel.y(), pixel.z()] {
            assert!(0 <= e.raw() && e.raw() <= 1_000_000);
        }
    }
}

fn text_of(image: &[Vec<Color>]) -> String {
    let mut text = String::new();
    for row in image {
        for pixel in row {
            text.push_str(&write_color(pixel));
            text.push('\n');
        }
    }
    text
}

fn scenic() -> Camera {
    Camera::new(
        Fixed::from_int(16).div(Fixed::from_int(9)),
        32,
        1,
        10,
        fx(1_000_000),
        v(0, 0, 0),
        v(0, 0, -1_000_000),
        v(0, 1_000_000, 0),
        fx(0),
        fx(1_000_000),
    )
}

#[test]
fn two_renders_from_the_same_seed_are_identical() {
    let world = two_spheres();
    let cam = scenic();
    let first = cam.render(&world, &mut StdRng::seed_from_u64(2024));
    let second = cam.render(&world, &mut StdRng::seed_from_u64(2024));
    assert_eq!(first.len(), 18);
    assert_eq!(first[0].len(), 32);
    assert_eq!(first, second);
    assert_eq!(text_of(&first), text_of(&second));
}

#[test]
fn a_render_shows_sky_ball_and_ground() {
    let world = two_spheres();
    let cam = scenic();
    let image = cam.render(&world, &mut StdRng::seed_from_u64(7));
    // The top row is sky: blue is one.
    for pixel in &image[0] {
        assert_eq!(pixel.z().raw(), 1_000_000);
    }
    // The ground is yellow: it reflects no blue.
    for pixel in &image[17] {
        assert_eq!(pixel.z().raw(), 0);
    }
    // The ball in the middle reflects more red than green or blue.
    let ball = image[9][16];
    assert!(ball.x().raw() >= ball.y().raw());
    assert!(ball.x().raw() >= ball.z().raw());
    assert!(ball.z().raw() < 1_000_000);
}

#[test]
fn rendering_row_by_row_is_rendering() {
    let world = two_spheres();
    let cam = scenic();
    let whole = cam.render(&world, &mut StdRng::seed_from_u64(5));
    let mut rng = StdRng::seed_from_u64(5);
    for (j, row) in whole.iter().enumerate() {
        assert_eq!(*row, cam.render_row(j as u64, &world, &mut rng));
    }
}

/// Draws for every sample of every pixel of `cam`, taken from a seeded
/// source.
fn drawn(cam: &Camera, samples: u64, depth: u64, seed: u64) -> Vec<Vec<Vec<SampleDraws>>> {
    let mut rng = StdRng::seed_from_u64(seed);
    let mut image = Vec::new();
    for _ in 0..cam.image_height() {
        let mut row = Vec::new();
        for _ in 0..cam.image_width() {
            let mut pixel = Vec::new();
            for _ in 0..samples {
                let mut bounces = Vec::new();
                for _ in 0..depth {
                    bounces.push(BounceDraw {
                        unit: random_unit_vector(&mut rng),
                        uniform: random_range(&mut rng, Fixed::zero(), Fixed::one()),
                    });
                }
                pixel.push(SampleDraws {
                    offset: cam.sample_square(&mut rng),
                    disk: random_in_unit_disk(&mut rng),
                    bounces,
                });
            }
            row.push(pixel);
        }
        image.push(row);
    }
    image
}

#[test]
fn the_same_draws_give_the_same_image() {
    let world = two_spheres();
    let cam = scenic();
    let draws = drawn(&cam, 1, 10, 77);
    let first = cam.render_with(&world, &draws);
    let second = cam.render_with(&world, &draws);
    assert_eq!(first.len(), 18);
    assert_eq!(first[0].len(), 32);
    assert_eq!(first, second);
    assert_eq!(text_of(&first), text_of(&second));
    // Drawn again from the same seed, the draws are the same.
    let third = cam.render_with(&world, &drawn(&cam, 1, 10, 77));
    assert_eq!(text_of(&first), text_of(&third));
    let other = cam.render_with(&world, &drawn(&cam, 1, 10, 78));
    assert_ne!(first, other);
}

#[test]
fn an_image_from_draws_is_made_of_its_pixels_and_samples() {
    let world = two_spheres();
    let cam = simple(2, 3);
    let draws = drawn(&cam, 2, 3, 5);
    let image = cam.render_with(&world, &draws);
    for j in 0..2usize {
        assert_eq!(image[j], cam.render_row_with(j as u64, &world, &draws[j]));
        for i in 0..4usize {
            let pixel = cam.pixel_color_with(i as u64, j as u64, &world, &draws[j][i]);
            assert_eq!(image[j][i], pixel);
            let mut sum = v(0, 0, 0);
            for sample in &draws[j][i] {
                let r = cam.sample_ray(i as u64, j as u64, sample.offset, sample.disk);
                sum.add_assign(cam.ray_color_with(&r, 3, &world, &sample.bounces, 0));
            }
            assert_eq!(pixel, sum.mul_scalar(fx(500_000)));
        }
    }
}

#[test]
fn a_sample_ray_is_the_ray_through_the_offset_pixel() {
    let cam = simple(1, 1);
    let r = cam.sample_ray(1, 1, v(250_000, -500_000, 0), v(900_000, 0, 0));
    assert_eq!(r.origin(), v(0, 0, 0));
    assert_eq!(r.direction(), v(-250_000, 0, -1_000_000));
    let lens = tilted();
    let r = lens.sample_ray(7, 11, v(100_000, -300_000, 0), v(300_000, 400_000, 0));
    assert_eq!(r.origin(), v(3_025_393, 3_169_830, 1_804_777));
    assert_eq!(r.direction(), v(-4_260_720, -3_426_791, -1_319_150));
}

#[test]
fn given_draws_decide_each_bounce() {
    let cam = simple(1, 3);
    let mut world = HittableList::new();
    world.add(Sphere::new(
        v(0, 0, -1_000_000),
        fx(500_000),
        AnyMaterial::Lambertian(Lambertian::new(v(500_000, 500_000, 500_000))),
    ));
    let r = Ray::new(v(0, 0, 0), v(0, 0, -1_000_000));
    let up = BounceDraw { unit: v(0, 1_000_000, 0), uniform: fx(0) };
    let back = BounceDraw { unit: v(0, 0, 1_000_000), uniform: fx(0) };
    // The hit is at (0, 0, -0.5) with the normal (0, 0, 1): the scattered
    // ray leaves along (0, 1, 1) or (0, 0, 2) into the sky.
    assert_eq!(
        cam.ray_color_with(&r, 3, &world, &vec![up, up, up], 0),
        background(&Ray::new(v(0, 0, 0), v(0, 1_000_000, 1_000_000))).mul_scalar(fx(500_000))
    );
    assert_eq!(
        cam.ray_color_with(&r, 3, &world, &vec![up, back, back], 1),
        v(375_000, 425_000, 500_000)
    );
    assert_eq!(cam.ray_color_with(&r, 0, &world, &vec![], 0), black());
    assert_eq!(cam.ray_color_with(&r, 1, &world, &vec![up], 0), black());
}
