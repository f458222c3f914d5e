//! End-to-end and component tests for the fixed-point path tracer.
//! One unit is 65536; colors put 1.0 at 65536 per channel.

use raytracer::camera::Camera;
use raytracer::hit::{HitRecord, World};
use raytracer::material::{schlick, Material};
use raytracer::ppm::write_ppm;
use raytracer::ray::Ray;
use raytracer::render::{quantize, ray_color, render_image, Rgb};
use raytracer::rng::{random_fx_unit, random_in_unit_disk, random_in_unit_sphere, rng_from_seed};
use raytracer::sphere::Sphere;
use raytracer::vec3::Vec3;

const SC: i64 = 65536;

fn v(x: i64, y: i64, z: i64) -> Vec3 {
    Vec3 { x, y, z }
}

fn gray(level: i64) -> Material {
    Material::Lambertian { albedo: v(level, level, level) }
}

// A ray hitting a sphere meets it at distance `radius` from the
// center, up to fixed-point truncation.
#[test]
fn hit_point_lies_on_surface() {
    let s = Sphere::new(v(0, 0, -3 * SC), SC, gray(SC / 2));
    let r = Ray::new(v(0, 0, 0), v(0, 0, -SC));
    let rec = s.hit(&r, 66, 1 << 40).expect("the ray points at the sphere");
    let d = rec.p.sub(s.center).length();
    assert!((d - s.radius).abs() <= 8, "|point - center| = {} vs radius {}", d, s.radius);
    assert!(rec.front_face);
    // The nearer root lies at t close to 2.0 in fixed point.
    assert!((rec.t - 2 * SC).abs() <= 8);
}

#[test]
fn sphere_miss_returns_none() {
    let s = Sphere::new(v(0, 0, -3 * SC), SC, gray(SC / 2));
    let r = Ray::new(v(0, 0, 0), v(0, 0, SC));
    assert!(s.hit(&r, 66, 1 << 40).is_none());
}

// Reflecting a vector aligned with the normal negates it and keeps
// its magnitude exactly.
#[test]
fn reflect_preserves_magnitude() {
    let n = v(0, SC, 0);
    let inc = v(0, -3 * SC, 0);
    let refl = inc.reflect(n);
    assert_eq!(refl, v(0, 3 * SC, 0));
    assert_eq!(refl.length(), inc.length());
    assert_eq!(refl.length_squared(), inc.length_squared());
}

fn head_on_record(mat: Material) -> (Ray, HitRecord) {
    let ray = Ray::new(v(0, SC, 0), v(0, -SC, 0));
    let rec = HitRecord {
        p: v(0, 0, 0),
        normal: v(0, SC, 0),
        t: SC,
        front_face: true,
        mat,
    };
    (ray, rec)
}

// Lambertian attenuation is the configured albedo for every draw.
#[test]
fn lambertian_attenuation_is_albedo() {
    let albedo = v(52428, 26214, 13107);
    let mat = Material::Lambertian { albedo };
    let (ray, rec) = head_on_record(mat);
    for seed in 0..32u64 {
        let mut rng = rng_from_seed(seed);
        let (att, scattered) = mat.scatter(&ray, &rec, &mut rng).expect("diffuse always scatters");
        assert_eq!(att, albedo);
        assert_eq!(scattered.origin, rec.p);
    }
}

// A polished metal (fuzz 0) scatters deterministically into the exact
// geometric reflection.
#[test]
fn metal_without_fuzz_is_deterministic() {
    let albedo = v(SC, SC, SC);
    let mat = Material::Metal { albedo, fuzz: 0 };
    let ray = Ray::new(v(-SC, SC, 0), v(SC, -SC, 0));
    let normal = v(0, SC, 0);
    let rec = HitRecord { p: v(0, 0, 0), normal, t: SC, front_face: true, mat };
    let expected = ray.direction.unit().reflect(normal);
    for seed in 0..32u64 {
        let mut rng = rng_from_seed(seed);
        let (att, scattered) = mat.scatter(&ray, &rec, &mut rng).expect("points away from surface");
        assert_eq!(att, albedo);
        assert_eq!(scattered.direction, expected);
    }
}

// A fuzzed reflection that points into the surface is absorbed.
#[test]
fn metal_absorbs_grazing_reflection() {
    let mat = Material::Metal { albedo: v(SC, SC, SC), fuzz: 0 };
    let ray = Ray::new(v(0, -SC, 0), v(0, SC, 0));
    let rec = HitRecord {
        p: v(0, 0, 0),
        normal: v(0, SC, 0),
        t: SC,
        front_face: false,
        mat,
    };
    let mut rng = rng_from_seed(7);
    assert!(mat.scatter(&ray, &rec, &mut rng).is_none());
}

// A dielectric with index 1 under normal incidence always refracts,
// and the ray passes through unbent, with white attenuation.
#[test]
fn dielectric_index_one_passes_straight_through() {
    let mat = Material::Dielectric { refractive_index: SC };
    let (ray, rec) = head_on_record(mat);
    for seed in 0..64u64 {
        let mut rng = rng_from_seed(seed);
        let (att, scattered) = mat.scatter(&ray, &rec, &mut rng).expect("glass scatters");
        assert_eq!(att, v(SC, SC, SC));
        assert_eq!(scattered.direction, v(0, -SC, 0), "refraction must not bend the ray");
    }
}

// Leaving a dense medium at a steep angle: total internal reflection.
#[test]
fn dielectric_total_internal_reflection() {
    let mat = Material::Dielectric { refractive_index: 3 * SC / 2 };
    // Inside the glass (back face), hitting the surface at ~45
    // degrees: ratio * sin(45) = 1.5 * 0.707 > 1.
    let ray = Ray::new(v(-SC, SC, 0), v(SC, -SC, 0));
    let normal = v(0, SC, 0);
    let rec = HitRecord { p: v(0, 0, 0), normal, t: SC, front_face: false, mat };
    let expected = ray.direction.unit().reflect(normal);
    let mut rng = rng_from_seed(11);
    let (att, scattered) = mat.scatter(&ray, &rec, &mut rng).expect("glass scatters");
    assert_eq!(att, v(SC, SC, SC));
    assert_eq!(scattered.direction, expected);
}

// Exhausted bounce budget yields black whatever the scene holds.
#[test]
fn ray_color_depth_zero_is_black() {
    let mut world = World::new();
    world.push(Sphere::new(v(0, 0, -3 * SC), SC, gray(SC / 2)));
    let r = Ray::new(v(0, 0, 0), v(0, 0, -SC));
    let mut rng = rng_from_seed(3);
    assert_eq!(ray_color(&r, &world, 0, &mut rng), v(0, 0, 0));
}

// The background gradient at the extremes: pure white straight down,
// the exact sky blue straight up.
#[test]
fn background_gradient_extremes() {
    let world = World::new();
    let mut rng = rng_from_seed(5);
    let down = Ray::new(v(0, 0, 0), v(0, -SC, 0));
    assert_eq!(ray_color(&down, &world, 8, &mut rng), v(SC, SC, SC));
    let up = Ray::new(v(0, 0, 0), v(0, SC, 0));
    assert_eq!(ray_color(&up, &world, 8, &mut rng), v(32768, 45875, SC));
}

// The nearest of several spheres along the ray wins.
#[test]
fn world_hit_returns_nearest() {
    let mut world = World::new();
    world.push(Sphere::new(v(0, 0, -5 * SC), SC, gray(SC / 4)));
    world.push(Sphere::new(v(0, 0, -3 * SC), SC, gray(SC / 2)));
    let r = Ray::new(v(0, 0, 0), v(0, 0, -SC));
    let rec = world.hit(&r, 66, 1 << 40).expect("both spheres are ahead");
    assert!((rec.t - 2 * SC).abs() <= 8, "nearest surface is at t close to 2, got {}", rec.t);
    assert_eq!(rec.mat, gray(SC / 2));
}

#[test]
fn world_hit_empty_is_none() {
    let world = World::new();
    let r = Ray::new(v(0, 0, 0), v(0, 0, -SC));
    assert!(world.hit(&r, 66, 1 << 40).is_none());
}

// A closed aperture makes the camera a deterministic pinhole.
#[test]
fn camera_pinhole_is_deterministic() {
    let cam = Camera::new(
        v(0, 0, 0),
        v(0, 0, -SC),
        v(0, SC, 0),
        11529,  // roughly the tangent of half a 20-degree field of view
        98304,  // 3:2 aspect ratio
        0,
        10 * SC,
    );
    let mut rng_a = rng_from_seed(1);
    let mut rng_b = rng_from_seed(999);
    let ra = cam.get_ray(SC / 2, SC / 2, &mut rng_a);
    let rb = cam.get_ray(SC / 2, SC / 2, &mut rng_b);
    assert_eq!(ra, rb);
    assert_eq!(ra.origin, v(0, 0, 0));
}

// Quantization: average, clamp, gamma, truncate.
#[test]
fn quantize_exact_values() {
    assert_eq!(quantize(0, 1), 0);
    assert_eq!(quantize(-5, 1), 0);
    // 0.25 -> sqrt 0.5 -> 128.
    assert_eq!(quantize(16384, 1), 128);
    // Averaged over two samples.
    assert_eq!(quantize(32768, 2), 128);
    // Full intensity clips to 255.
    assert_eq!(quantize(SC, 1), 255);
    assert_eq!(quantize(100 * SC, 1), 255);
    // 1/65536 of intensity: sqrt is 1/256, scaled to 1.
    assert_eq!(quantize(1, 1), 1);
}

// The end-to-end scene: a huge ground sphere under a camera looking
// along -z renders a horizon gradient, reproducibly for a fixed seed.
#[test]
fn seeded_render_is_reproducible() {
    let mut world = World::new();
    world.push(Sphere::new(
        v(0, -1000 * SC, 0),
        1000 * SC,
        gray(SC / 2),
    ));
    let cam = Camera::new(
        v(0, SC, 3 * SC),
        v(0, SC, 0),
        v(0, SC, 0),
        11529,
        98304,
        0,
        10 * SC,
    );
    let first = render_image(&world, &cam, 24, 16, 1, 1, 42);
    let second = render_image(&world, &cam, 24, 16, 1, 1, 42);
    assert_eq!(first.len(), 24 * 16);
    assert_eq!(first, second, "same seed must reproduce the image bit for bit");
    // The top of the image sees sky, the bottom sees the ground: the
    // column must not be constant.
    let top = first[0];
    let bottom = first[24 * 16 - 1];
    assert_ne!(top, bottom, "horizon gradient expected");
}

// The file header for a 1200x800 render, and one line per pixel.
#[test]
fn ppm_header_for_1200_by_800() {
    let pixels = vec![Rgb { r: 0, g: 0, b: 0 }; 1200 * 800];
    let bytes = write_ppm(1200, 800, &pixels);
    let text = String::from_utf8(bytes).expect("the file is ASCII");
    let lines: Vec<&str> = text.lines().collect();
    assert_eq!(lines[0], "P3");
    assert_eq!(lines[1], "1200 800");
    assert_eq!(lines[2], "255");
    assert_eq!(lines.len(), 3 + 960000);
    assert!(text.ends_with('\n'));
}

// A tiny image, byte for byte.
#[test]
fn ppm_small_exact() {
    let pixels = vec![
        Rgb { r: 0, g: 128, b: 255 },
        Rgb { r: 1, g: 2, b: 3 },
    ];
    let bytes = write_ppm(2, 1, &pixels);
    assert_eq!(bytes, b"P3\n2 1\n255\n0 128 255\n1 2 3\n".to_vec());
}

#[test]
fn ray_at_walks_the_direction() {
    let r = Ray::new(v(SC, 0, 0), v(0, 2 * SC, 0));
    assert_eq!(r.at(SC / 2), v(SC, SC, 0));
    assert_eq!(r.at(0), v(SC, 0, 0));
}

#[test]
fn vector_algebra_exact_values() {
    let a = v(SC, 2 * SC, 3 * SC);
    let b = v(4 * SC, 5 * SC, 6 * SC);
    assert_eq!(a.add(b), v(5 * SC, 7 * SC, 9 * SC));
    assert_eq!(b.sub(a), v(3 * SC, 3 * SC, 3 * SC));
    assert_eq!(a.dot(b), 32 * SC);
    assert_eq!(a.cross(b), v(-3 * SC, 6 * SC, -3 * SC));
    assert_eq!(a.cmul(b), v(4 * SC, 10 * SC, 18 * SC));
    assert_eq!(v(3 * SC, 0, 4 * SC).length(), 5 * SC);
    assert_eq!(v(0, 9 * SC, 0).unit(), v(0, SC, 0));
}

// The rejection samplers stay inside their domains for many seeds;
// a generator that ignored its bound would fail this immediately.
#[test]
fn samplers_stay_in_their_domains() {
    for seed in 0..64u64 {
        let mut rng = rng_from_seed(seed);
        let draw = random_fx_unit(&mut rng);
        assert!((0..SC).contains(&draw));
        let p = random_in_unit_sphere(&mut rng);
        assert!(p.length_squared() < SC);
        let d = random_in_unit_disk(&mut rng);
        assert!(d.length_squared() < SC);
        assert_eq!(d.z, 0);
    }
}

// Different seeds drive the diffuse bounce to different directions:
// the randomness really reaches the scattering.
#[test]
fn lambertian_directions_vary_with_seed() {
    let mat = Material::Lambertian { albedo: v(SC / 2, SC / 2, SC / 2) };
    let (ray, rec) = head_on_record(mat);
    let mut directions = Vec::new();
    for seed in 0..16u64 {
        let mut rng = rng_from_seed(seed);
        let (_, scattered) = mat.scatter(&ray, &rec, &mut rng).unwrap();
        directions.push(scattered.direction);
    }
    let first = directions[0];
    assert!(directions.iter().any(|d| *d != first), "seeds must influence the bounce");
}

// The Schlick reflectance at exact inputs: zero at normal incidence
// with matched indices, full reflectance at grazing incidence.
#[test]
fn schlick_exact_values() {
    assert_eq!(schlick(SC, SC), 0);
    assert_eq!(schlick(0, SC / 2), SC);
}

// Refraction with ratio 1 at normal incidence is the identity.
#[test]
fn refract_identity_at_matched_indices() {
    let n = v(0, SC, 0);
    let uv = v(0, -SC, 0);
    assert_eq!(uv.refract(n, SC), Some(uv));
}

// The derived camera basis for a canonical look along -z.
#[test]
fn camera_basis_for_canonical_view() {
    let cam = Camera::new(
        v(0, 0, 0),
        v(0, 0, -SC),
        v(0, SC, 0),
        11529,
        98304,
        0,
        10 * SC,
    );
    assert_eq!(cam.origin, v(0, 0, 0));
    assert_eq!(cam.u, v(SC, 0, 0));
    assert_eq!(cam.v, v(0, SC, 0));
    assert_eq!(cam.lens_radius, 0);
}

// A negative radius (the hollow-glass idiom) inverts the outward
// normal: the ray strikes what counts as the inside, so the record is
// back-facing and the stored normal is flipped to oppose the ray.
#[test]
fn negative_radius_inverts_normal() {
    let s = Sphere::new(v(0, 0, -3 * SC), -SC, gray(SC / 2));
    let r = Ray::new(v(0, 0, 0), v(0, 0, -SC));
    let rec = s.hit(&r, 66, 1 << 40).expect("the surface is the same sphere");
    assert!((rec.t - 2 * SC).abs() <= 8);
    assert!(!rec.front_face);
    assert_eq!(rec.normal, v(0, 0, SC), "the stored normal still opposes the ray");
}
