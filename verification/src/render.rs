//! The integrator and the render driver: the recursive Monte Carlo
//! radiance estimator, the gamma-correcting quantizer, and the
//! per-pixel sampling loop fanned out over a worker pool.

use vstd::prelude::*;
use rayon::iter::{IntoParallelIterator, ParallelIterator};
use vstd::arithmetic::mul::lemma_mul_inequality;
use crate::fx;
use crate::fx::{
    SC, FMAX, in_range, abs_s, fadd_s, fsub_s, fmul_s, fdiv_s, fsqrt_s, fadd, fsub, fmul, fdiv,
};
use crate::vec3::{Vec3, v_wf, v_zero, v_add, v_scale, v_cmul, v_len2, v_unit};
use crate::ray::Ray;
use crate::hit::{HitRecord, World, world_hit_some};
use crate::sphere::{sph_hit_t, sph_record};
use crate::material::{white, Material, scatter_admissible};
use crate::camera::{Camera, cam_ray};
use crate::rng::{Rng, rng_from_seed, random_fx_unit};

verus! {

/// Fixed-point one half.
pub const HALF: i64 = 32768;

/// The minimum hit distance, suppressing self-intersection at a
/// bounce origin (about 0.001 in fixed point).
pub const T_MIN_HIT: i64 = 66;

/// The sky-blue top of the background gradient, about (0.5, 0.7, 1.0).
pub open spec fn sky() -> Vec3 {
    Vec3 { x: 32768, y: 45875, z: 65536 }
}

/// Clamp a blend factor into [0, 1].
pub open spec fn clamp01_s(n: int) -> int {
    if n < 0 {
        0
    } else if n > SC {
        SC as int
    } else {
        n
    }
}

/// The background gradient: white at unit-direction y = -1 blending to
/// sky blue at y = +1, the blend factor clamped into [0, 1] (a short
/// direction's truncated unit vector can overshoot unit length).
pub open spec fn background_s(dir: Vec3) -> Vec3
    recommends
        v_len2(dir) > 0,
{
    let ud = v_unit(dir);
    let t = clamp01_s(fmul_s(HALF as int, fadd_s(ud.y as int, SC as int)));
    v_add(v_scale(fsub_s(SC as int, t), white()), v_scale(t, sky()))
}

pub fn sky_color() -> (c: Vec3)
    ensures
        c == sky(),
        c.wf(),
{
    Vec3 { x: 32768, y: 45875, z: 65536 }
}

pub fn black_color() -> (c: Vec3)
    ensures
        c == v_zero(),
        c.wf(),
{
    Vec3 { x: 0, y: 0, z: 0 }
}

/// What `ray_color` promises of its result: the integrator's defining
/// equations, with the random draws existentially quantified. One of
/// four cases holds: black once the bounce budget is exhausted; black
/// for a degenerate zero direction; the exact background gradient when
/// every sphere is missed; or, on a hit, a nearest-hit record with an
/// admissible scatter outcome whose attenuation multiplies an
/// admissible estimate one bounce down (black on absorption).
#[verifier::opaque]
pub open spec fn radiance_admissible(c: Vec3, ray: Ray, world: World, depth: u32) -> bool
    decreases depth,
{
    v_wf(c) && ((depth == 0 && c == v_zero()) || (depth > 0 && v_len2(ray.direction) == 0 && c
        == v_zero()) || (depth > 0 && v_len2(ray.direction) != 0 && (forall|j: int|
        0 <= j < world.spheres@.len() ==> #[trigger] sph_hit_t(
            world.spheres@[j],
            ray,
            T_MIN_HIT as int,
            FMAX as int,
        ) is None) && c == background_s(ray.direction)) || (depth > 0 && v_len2(ray.direction)
        != 0 && (exists|rec: HitRecord, res: Option<(Vec3, Ray)>|
        world_hit_some(world, ray, T_MIN_HIT as int, FMAX as int, rec)
            && #[trigger] scatter_admissible(rec.mat, ray, rec, res) && match res {
            Some(ar) => exists|rest: Vec3|
                #![trigger v_cmul(ar.0, rest)]
                radiance_admissible(rest, ar.1, world, (depth - 1) as u32) && c == v_cmul(
                    ar.0,
                    rest,
                ),
            None => c == v_zero(),
        })))
}

/// A world with a real nearest hit is not a world whose spheres are
/// all missed.
#[verifier::spinoff_prover]
proof fn lemma_hit_refutes_missed(world: World, ray: Ray, rec: HitRecord)
    requires
        world_hit_some(world, ray, T_MIN_HIT as int, FMAX as int, rec),
    ensures
        !(forall|j: int|
            0 <= j < world.spheres@.len() ==> sph_hit_t(
                world.spheres@[j],
                ray,
                T_MIN_HIT as int,
                FMAX as int,
            ) is None),
{
    reveal(world_hit_some);
    let i0 = choose|i0: int|
        0 <= i0 < world.spheres@.len() && #[trigger] sph_hit_t(
            world.spheres@[i0],
            ray,
            T_MIN_HIT as int,
            FMAX as int,
        ) == Some(rec.t as int) && rec == sph_record(world.spheres@[i0], ray, rec.t as int);
    assert(sph_hit_t(world.spheres@[i0], ray, T_MIN_HIT as int, FMAX as int) is Some);
}

/// Assembling the hit case of `radiance_admissible`: a real nearest
/// hit, an admissible scatter outcome for it, and an admissible
/// recursive estimate (or absorption) make the combined color
/// admissible one level up.
#[verifier::rlimit(100)]
#[verifier::spinoff_prover]
proof fn lemma_radiance_hit(
    c: Vec3,
    ray: Ray,
    world: World,
    depth: u32,
    rec: HitRecord,
    res: Option<(Vec3, Ray)>,
)
    requires
        depth > 0,
        v_len2(ray.direction) != 0,
        v_wf(c),
        world_hit_some(world, ray, T_MIN_HIT as int, FMAX as int, rec),
        scatter_admissible(rec.mat, ray, rec, res),
        match res {
            Some(ar) => exists|rest: Vec3|
                #![trigger v_cmul(ar.0, rest)]
                radiance_admissible(rest, ar.1, world, (depth - 1) as u32) && c == v_cmul(
                    ar.0,
                    rest,
                ),
            None => c == v_zero(),
        },
    ensures
        radiance_admissible(c, ray, world, depth),
{
    reveal_with_fuel(radiance_admissible, 1);
    assert(exists|rec2: HitRecord, res2: Option<(Vec3, Ray)>|
        world_hit_some(world, ray, T_MIN_HIT as int, FMAX as int, rec2)
            && #[trigger] scatter_admissible(rec2.mat, ray, rec2, res2) && match res2 {
            Some(ar) => exists|rest: Vec3|
                #![trigger v_cmul(ar.0, rest)]
                radiance_admissible(rest, ar.1, world, (depth - 1) as u32) && c == v_cmul(
                    ar.0,
                    rest,
                ),
            None => c == v_zero(),
        });
    assert(radiance_admissible(c, ray, world, depth));
}

/// The radiance arriving along a ray, estimated with at most `depth`
/// bounces. The result is an admissible radiance estimate, and every
/// channel stays in [0, 1]: attenuations lie in [0, 1] and so does the
/// clamped background.
#[verifier::rlimit(80)]
pub fn ray_color(ray: &Ray, world: &World, depth: u32, rng: &mut Rng) -> (c: Vec3)
    requires
        world.wf(),
        ray.wf(),
    ensures
        c.wf(),
        radiance_admissible(c, *ray, *world, depth),
        0 <= c.x <= SC,
        0 <= c.y <= SC,
        0 <= c.z <= SC,
        depth == 0 ==> c == v_zero(),
        depth > 0 && v_len2(ray.direction) == 0 ==> c == v_zero(),
        depth > 0 && v_len2(ray.direction) > 0 && (forall|j: int|
            0 <= j < world.spheres@.len() ==> sph_hit_t(
                world.spheres@[j],
                *ray,
                T_MIN_HIT as int,
                FMAX as int,
            ) is None) ==> c == background_s(ray.direction),
    decreases depth,
{
    if depth == 0 {
        proof {
            reveal_with_fuel(radiance_admissible, 1);
            assert(radiance_admissible(v_zero(), *ray, *world, depth));
        }
        return black_color();
    }
    let l2 = ray.direction.length_squared();
    if l2 == 0 {
        proof {
            reveal_with_fuel(radiance_admissible, 1);
            assert(radiance_admissible(v_zero(), *ray, *world, depth));
        }
        return black_color();
    }
    match world.hit(ray, T_MIN_HIT, FMAX) {
        Some(rec) => {
            let res = rec.mat.scatter(ray, &rec, rng);
            match res {
                Some((att, scattered)) => {
                    proof {
                        assert(0 <= att.x <= SC && 0 <= att.y <= SC && 0 <= att.z <= SC
                            && scattered.wf()) by {
                            reveal(scatter_admissible);
                            match rec.mat {
                                Material::Lambertian { albedo } => {
                                    assert(att == albedo);
                                },
                                Material::Metal { albedo, fuzz } => {
                                    assert(att == albedo);
                                },
                                Material::Dielectric { refractive_index } => {
                                    assert(att == white());
                                },
                            }
                        }
                    }
                    let rest = ray_color(&scattered, world, depth - 1, rng);
                    let c = att.cmul(rest);
                    proof {
                        fx::lemma_fmul_unit_bound(att.x as int, rest.x as int);
                        fx::lemma_fmul_unit_bound(att.y as int, rest.y as int);
                        fx::lemma_fmul_unit_bound(att.z as int, rest.z as int);
                        assert(radiance_admissible(
                            rest,
                            ((att, scattered)).1,
                            *world,
                            (depth - 1) as u32,
                        ) && c == v_cmul(((att, scattered)).0, rest));
                        lemma_radiance_hit(c, *ray, *world, depth, rec, Some((att, scattered)));
                        lemma_hit_refutes_missed(*world, *ray, rec);
                    }
                    c
                },
                None => {
                    proof {
                        lemma_radiance_hit(v_zero(), *ray, *world, depth, rec, None::<(Vec3, Ray)>);
                        lemma_hit_refutes_missed(*world, *ray, rec);
                    }
                    black_color()
                },
            }
        },
        None => {
            let ud = ray.direction.unit();
            let t0 = fmul(HALF, fadd(ud.y, SC));
            let t: i64 = if t0 < 0 {
                0
            } else if t0 > SC {
                SC
            } else {
                t0
            };
            let c = crate::material::white_color().scale(fsub(SC, t)).add(sky_color().scale(t));
            proof {
                let tt = t as int;
                fx::lemma_fmul_one(fsub_s(SC as int, tt));
                fx::lemma_fmul_one(tt);
                fx::lemma_fmul_unit_bound(tt, 32768);
                fx::lemma_fmul_unit_bound(tt, 45875);
                assert(c == background_s(ray.direction));
                assert(0 <= c.x <= SC && 0 <= c.y <= SC && 0 <= c.z <= SC);
                reveal_with_fuel(radiance_admissible, 1);
                assert(radiance_admissible(c, *ray, *world, depth));
            }
            c
        },
    }
}

/// The background gradient at the extremes of the unit direction's
/// vertical component: pure white where it points straight down, the
/// exact sky blue where it points straight up.
pub proof fn lemma_background_extremes()
    ensures
        background_s(Vec3 { x: 0, y: (-(SC as int)) as i64, z: 0 }) == white(),
        background_s(Vec3 { x: 0, y: SC, z: 0 }) == sky(),
{
    let down = Vec3 { x: 0, y: (-(SC as int)) as i64, z: 0 };
    let up = Vec3 { x: 0, y: SC, z: 0 };
    fx::lemma_fmul_zero(0);
    fx::lemma_fmul_one(SC as int);
    assert(fmul_s(-(SC as int), -(SC as int)) == fmul_s(SC as int, SC as int));
    assert(v_len2(down) == SC);
    assert(v_len2(up) == SC);
    fx::lemma_fsqrt_one();
    fx::lemma_fdiv_zero(SC as int);
    fx::lemma_fdiv_one(SC as int);
    fx::lemma_fdiv_one(-(SC as int));
    assert(v_unit(down) == down);
    assert(v_unit(up) == up);
    // Straight down: the blend factor is zero, leaving pure white.
    assert(fadd_s(-(SC as int), SC as int) == 0);
    fx::lemma_fmul_zero(HALF as int);
    assert(fmul_s(HALF as int, 0) == 0);
    fx::lemma_fmul_one(white().x as int);
    fx::lemma_fmul_one(white().y as int);
    fx::lemma_fmul_one(white().z as int);
    fx::lemma_fmul_zero(sky().x as int);
    fx::lemma_fmul_zero(sky().y as int);
    fx::lemma_fmul_zero(sky().z as int);
    assert(v_scale(fsub_s(SC as int, 0), white()) == white());
    assert(v_scale(0, sky()) == v_zero());
    assert(background_s(down) == white());
    // Straight up: the blend factor is one, leaving the sky color.
    assert(fmul_s(HALF as int, fadd_s(SC as int, SC as int)) == SC) by {
        assert(abs_s(HALF as int) * abs_s(131072int) / 65536int == 65536int)
            by (nonlinear_arith)
            requires
                abs_s(HALF as int) == 32768int,
                abs_s(131072int) == 131072int,
        ;
    }
    fx::lemma_fmul_zero(white().x as int);
    fx::lemma_fmul_one(sky().x as int);
    fx::lemma_fmul_one(sky().y as int);
    fx::lemma_fmul_one(sky().z as int);
    assert(v_scale(fsub_s(SC as int, SC as int), white()) == v_zero());
    assert(v_scale(SC as int, sky()) == sky());
    assert(background_s(up) == sky());
}

/// The quantization of one accumulated channel: average over the
/// sample count, clamp into [0, 1], gamma-correct with a square root,
/// scale to the 0..=255 byte range by truncation.
pub open spec fn quantize_s(sum: int, samples: int) -> int
    recommends
        samples >= 1,
{
    let avg = if sum <= 0 {
        0
    } else {
        sum / samples
    };
    let clamped = if avg > SC {
        SC as int
    } else {
        avg
    };
    let g = fsqrt_s(clamped);
    let v = g / 256;
    if v > 255 {
        255
    } else {
        v
    }
}

pub fn quantize(sum: i64, samples: u32) -> (q: u8)
    requires
        in_range(sum as int),
        samples >= 1,
    ensures
        q as int == quantize_s(sum as int, samples as int),
{
    let avg: i64 = if sum <= 0 {
        0
    } else {
        ((sum as u64) / (samples as u64)) as i64
    };
    let clamped: i64 = if avg > SC {
        SC
    } else {
        avg
    };
    let n: u128 = (clamped as u128) * 65536;
    let g: u64 = fx::isqrt_u128(n);
    let v: u64 = g / 256;
    if v > 255 {
        255
    } else {
        v as u8
    }
}

#[derive(Clone, Copy, PartialEq, Eq, Structural, Debug)]
pub struct Rgb {
    pub r: u8,
    pub g: u8,
    pub b: u8,
}

/// The normalized image-plane coordinate of line `k` out of `extent`,
/// jittered by the draw `r` from [0, 1).
pub open spec fn jitter_coord(k: int, r: int, extent: int) -> int
    recommends
        extent >= 2,
{
    fdiv_s(k * (SC as int) + r, (extent - 1) * (SC as int))
}

/// One admissible Monte Carlo sample for pixel (i, j): the radiance,
/// as `ray_color` pins it, of a camera ray cast through the jittered
/// pixel coordinate, for some jitter pair in [0, 1) and some lens
/// disk point.
pub open spec fn sample_admissible(
    c: Vec3,
    world: World,
    cam: Camera,
    i: int,
    j: int,
    width: int,
    height: int,
    depth: u32,
) -> bool {
    exists|ru: int, rv: int, d: Vec3|
        0 <= ru < SC && 0 <= rv < SC && v_wf(d) && v_len2(d) < SC && d.z == 0
            && #[trigger] radiance_admissible(
            c,
            cam_ray(cam, jitter_coord(i, ru, width), jitter_coord(j, rv, height), d),
            world,
            depth,
        )
}

/// The saturating componentwise sum of a sequence of sample colors.
pub open spec fn color_sum(cs: Seq<Vec3>) -> Vec3
    decreases cs.len(),
{
    if cs.len() == 0 {
        v_zero()
    } else {
        v_add(color_sum(cs.drop_last()), cs.last())
    }
}

/// What `render_pixel` promises: the pixel is the per-channel
/// quantization of the saturating sum of `samples` admissible sample
/// radiances for pixel (i, j).
pub open spec fn pixel_ok(
    px: Rgb,
    world: World,
    cam: Camera,
    i: int,
    j: int,
    width: int,
    height: int,
    samples: u32,
    depth: u32,
) -> bool {
    exists|cs: Seq<Vec3>|
        #![trigger color_sum(cs)]
        cs.len() == samples && (forall|k: int|
            0 <= k < cs.len() ==> sample_admissible(
                #[trigger] cs[k],
                world,
                cam,
                i,
                j,
                width,
                height,
                depth,
            )) && px == (Rgb {
            r: quantize_s(color_sum(cs).x as int, samples as int) as u8,
            g: quantize_s(color_sum(cs).y as int, samples as int) as u8,
            b: quantize_s(color_sum(cs).z as int, samples as int) as u8,
        })
}

/// One pixel's Monte Carlo estimate: `samples` independent jittered
/// rays through pixel `(i, j)` (row 0 at the bottom), accumulated in
/// the saturating algebra and quantized per channel.
pub fn render_pixel(
    world: &World,
    cam: &Camera,
    i: usize,
    j: usize,
    width: usize,
    height: usize,
    samples: u32,
    depth: u32,
    seed: u64,
) -> (px: Rgb)
    requires
        world.wf(),
        cam.wf(),
        2 <= width <= 100000,
        2 <= height <= 100000,
        i < width,
        j < height,
        samples >= 1,
    ensures
        pixel_ok(px, *world, *cam, i as int, j as int, width as int, height as int, samples, depth),
{
    proof {
        assert((j as int) * (width as int) + (i as int) < 0x1_0000_0000_0000int)
            by (nonlinear_arith)
            requires
                0 <= j as int <= 100000,
                0 <= width as int <= 100000,
                0 <= i as int <= 100000,
        ;
    }
    let idx: u64 = (j as u64) * (width as u64) + (i as u64);
    let mut rng: Rng = rng_from_seed(seed ^ idx);
    let mut sum_r: i64 = 0;
    let mut sum_g: i64 = 0;
    let mut sum_b: i64 = 0;
    let mut s: u32 = 0;
    let ghost mut cs: Seq<Vec3> = Seq::empty();
    while s < samples
        invariant
            world.wf(),
            cam.wf(),
            2 <= width <= 100000,
            2 <= height <= 100000,
            i < width,
            j < height,
            s <= samples,
            cs.len() == s,
            sum_r == color_sum(cs).x,
            sum_g == color_sum(cs).y,
            sum_b == color_sum(cs).z,
            in_range(sum_r as int),
            in_range(sum_g as int),
            in_range(sum_b as int),
            forall|k: int|
                0 <= k < cs.len() ==> sample_admissible(
                    #[trigger] cs[k],
                    *world,
                    *cam,
                    i as int,
                    j as int,
                    width as int,
                    height as int,
                    depth,
                ),
        decreases samples - s,
    {
        let ru = random_fx_unit(&mut rng);
        let rv = random_fx_unit(&mut rng);
        let nu: i64 = (i as i64) * SC + ru;
        let nv: i64 = (j as i64) * SC + rv;
        let du: i64 = ((width - 1) as i64) * SC;
        let dv: i64 = ((height - 1) as i64) * SC;
        let u = fdiv(nu, du);
        let v = fdiv(nv, dv);
        let ray = cam.get_ray(u, v, &mut rng);
        let c = ray_color(&ray, world, depth, &mut rng);
        proof {
            let d = choose|d: Vec3|
                v_wf(d) && v_len2(d) < SC && d.z == 0 && ray == cam_ray(
                    *cam,
                    u as int,
                    v as int,
                    d,
                );
            assert(u as int == jitter_coord(i as int, ru as int, width as int));
            assert(v as int == jitter_coord(j as int, rv as int, height as int));
            assert(radiance_admissible(
                c,
                cam_ray(
                    *cam,
                    jitter_coord(i as int, ru as int, width as int),
                    jitter_coord(j as int, rv as int, height as int),
                    d,
                ),
                *world,
                depth,
            ));
            assert(sample_admissible(
                c,
                *world,
                *cam,
                i as int,
                j as int,
                width as int,
                height as int,
                depth,
            ));
        }
        sum_r = fadd(sum_r, c.x);
        sum_g = fadd(sum_g, c.y);
        sum_b = fadd(sum_b, c.z);
        proof {
            assert(cs.push(c).drop_last() =~= cs);
            assert(cs.push(c).last() == c);
            assert(color_sum(cs.push(c)) == v_add(color_sum(cs), c));
            cs = cs.push(c);
        }
        s = s + 1;
    }
    let px = Rgb {
        r: quantize(sum_r, samples),
        g: quantize(sum_g, samples),
        b: quantize(sum_b, samples),
    };
    proof {
        assert(cs.len() == samples);
        assert(px == (Rgb {
            r: quantize_s(color_sum(cs).x as int, samples as int) as u8,
            g: quantize_s(color_sum(cs).y as int, samples as int) as u8,
            b: quantize_s(color_sum(cs).z as int, samples as int) as u8,
        }));
        assert(pixel_ok(
            px,
            *world,
            *cam,
            i as int,
            j as int,
            width as int,
            height as int,
            samples,
            depth,
        ));
    }
    px
}

/// Relies on rayon's `into_par_iter().map(..).collect()`: the parallel
/// map applies its closure to every index of `0..width` and collects
/// the results in index order, so the row has one entry per column and
/// each entry is a `render_pixel` result, which that function's own
/// contract shows to be an admissible quantized pixel. The closure
/// only calls the verified `render_pixel`.
#[verifier::external_body]
fn render_row_par(
    world: &World,
    cam: &Camera,
    j: usize,
    width: usize,
    height: usize,
    samples: u32,
    depth: u32,
    seed: u64,
) -> (row: Vec<Rgb>)
    requires
        world.wf(),
        cam.wf(),
        2 <= width <= 100000,
        2 <= height <= 100000,
        j < height,
        samples >= 1,
    ensures
        row@.len() == width as nat,
        forall|k: int|
            0 <= k < row@.len() ==> pixel_ok(
                #[trigger] row@[k],
                *world,
                *cam,
                k,
                j as int,
                width as int,
                height as int,
                samples,
                depth,
            ),
{
    (0..width)
        .into_par_iter()
        .map(|i| render_pixel(world, cam, i, j, width, height, samples, depth, seed))
        .collect()
}

/// Render the whole image in the file's scan order: output row `r`
/// holds image row `height - 1 - r` (the visual top first), pixels
/// left to right, `width * height` pixels in all, each an admissible
/// quantized estimate for its own image coordinates.
pub fn render_image(
    world: &World,
    cam: &Camera,
    width: usize,
    height: usize,
    samples: u32,
    depth: u32,
    seed: u64,
) -> (pixels: Vec<Rgb>)
    requires
        world.wf(),
        cam.wf(),
        2 <= width <= 100000,
        2 <= height <= 100000,
        width * height <= 100_000_000,
        samples >= 1,
    ensures
        pixels@.len() == width * height,
        forall|r: int, cc: int|
            0 <= r < height && 0 <= cc < width ==> pixel_ok(
                #[trigger] pixels@[r * (width as int) + cc],
                *world,
                *cam,
                cc,
                height - 1 - r,
                width as int,
                height as int,
                samples,
                depth,
            ),
{
    let mut pixels: Vec<Rgb> = Vec::new();
    let mut done: usize = 0;
    while done < height
        invariant
            world.wf(),
            cam.wf(),
            2 <= width <= 100000,
            2 <= height <= 100000,
            width * height <= 100_000_000,
            samples >= 1,
            done <= height,
            pixels@.len() == done * width,
            forall|r: int, cc: int|
                0 <= r < done && 0 <= cc < width ==> pixel_ok(
                    #[trigger] pixels@[r * (width as int) + cc],
                    *world,
                    *cam,
                    cc,
                    height - 1 - r,
                    width as int,
                    height as int,
                    samples,
                    depth,
                ),
        decreases height - done,
    {
        let j = height - 1 - done;
        let mut row = render_row_par(world, cam, j, width, height, samples, depth, seed);
        proof {
            assert((done + 1) * width == done * width + width) by (nonlinear_arith);
            assert((done + 1) * width <= height * width) by (nonlinear_arith)
                requires
                    done + 1 <= height,
                    width >= 0,
            ;
            assert(height * width == width * height) by (nonlinear_arith);
        }
        let ghost prev = pixels@;
        let ghost rowsnap = row@;
        pixels.append(&mut row);
        proof {
            assert(pixels@ == prev + rowsnap);
            assert forall|r: int, cc: int|
                0 <= r < done + 1 && 0 <= cc < width implies pixel_ok(
                #[trigger] pixels@[r * (width as int) + cc],
                *world,
                *cam,
                cc,
                height - 1 - r,
                width as int,
                height as int,
                samples,
                depth,
            ) by {
                assert(r * (width as int) >= 0) by (nonlinear_arith)
                    requires
                        r >= 0,
                        width as int >= 0,
                ;
                if r < done {
                    lemma_mul_inequality(r, done - 1, width as int);
                    assert((done - 1) * (width as int) + width as int == done * (width as int))
                        by (nonlinear_arith);
                    assert(r * (width as int) + cc < prev.len());
                    assert(pixels@[r * (width as int) + cc] == prev[r * (width as int) + cc]);
                } else {
                    assert(r == done as int);
                    assert(r * (width as int) == prev.len());
                    assert(pixels@[r * (width as int) + cc] == rowsnap[cc]);
                }
            }
        }
        done = done + 1;
    }
    proof {
        assert(height * width == width * height) by (nonlinear_arith);
    }
    pixels
}

} // verus!
