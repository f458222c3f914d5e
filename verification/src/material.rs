//! The three scattering models: diffuse, fuzzy-reflective and
//! dielectric. The data model lives here; the scattering protocol is
//! implemented on `Material` further down, once randomness is in scope.

use vstd::prelude::*;
use crate::fx;
use crate::fx::{
    SC, in_range, fadd_s, fsub_s, fmul_s, fdiv_s, fsqrt_s, fadd, fsub, fmul, fdiv, fsqrt,
};
use crate::vec3::{
    Vec3, v_wf, v_zero, v_add, v_neg, v_scale, v_dot, v_len2, v_unit, v_reflect, v_refract,
};
use crate::ray::Ray;
use crate::hit::HitRecord;
use crate::rng::{Rng, random_fx_unit, random_unit_vector, random_in_unit_sphere};

verus! {

/// A color with every channel in `[0, 1]`.
pub open spec fn color_wf(c: Vec3) -> bool {
    0 <= c.x <= SC && 0 <= c.y <= SC && 0 <= c.z <= SC
}

#[derive(Clone, Copy, PartialEq, Eq, Structural, Debug)]
pub enum Material {
    Lambertian { albedo: Vec3 },
    Metal { albedo: Vec3, fuzz: i64 },
    Dielectric { refractive_index: i64 },
}

/// Glass attenuates nothing: its attenuation is pure white.
pub open spec fn white() -> Vec3 {
    Vec3 { x: SC, y: SC, z: SC }
}

/// The Schlick polynomial approximation of the Fresnel reflectance,
/// over the fixed-point algebra.
pub open spec fn schlick_s(cos_theta: int, ratio: int) -> int {
    let r0 = fdiv_s(fsub_s(SC as int, ratio), fadd_s(SC as int, ratio));
    let r0sq = fmul_s(r0, r0);
    let m = fsub_s(SC as int, cos_theta);
    let m2 = fmul_s(m, m);
    let m5 = fmul_s(fmul_s(m2, m2), m);
    fadd_s(r0sq, fmul_s(fsub_s(SC as int, r0sq), m5))
}

/// The refraction ratio a dielectric uses at a hit: the reciprocal of
/// the index when the outer surface was struck, else the index itself.
pub open spec fn refraction_ratio(refractive_index: int, front_face: bool) -> int {
    if front_face {
        fdiv_s(SC as int, refractive_index)
    } else {
        refractive_index
    }
}

/// The cosine of the angle of incidence, capped at 1.
pub open spec fn cos_theta_s(unit_dir: Vec3, normal: Vec3) -> int {
    let d = v_dot(v_neg(unit_dir), normal);
    if d <= SC {
        d
    } else {
        SC as int
    }
}

pub open spec fn sin_theta_s(unit_dir: Vec3, normal: Vec3) -> int {
    fsqrt_s(fsub_s(SC as int, fmul_s(cos_theta_s(unit_dir, normal), cos_theta_s(unit_dir, normal))))
}

/// The direction a dielectric scatters into, given the uniform draw
/// `rd` from `[0, 1)`: reflection under total internal reflection or a
/// winning Schlick draw, refraction otherwise (with reflection again as
/// the fallback when the refraction computation finds no solution).
pub open spec fn dielectric_dir(unit_dir: Vec3, normal: Vec3, ratio: int, rd: int) -> Vec3 {
    let cos = cos_theta_s(unit_dir, normal);
    let sin = sin_theta_s(unit_dir, normal);
    if fmul_s(ratio, sin) > SC || schlick_s(cos, ratio) > rd {
        v_reflect(unit_dir, normal)
    } else {
        match v_refract(unit_dir, normal, ratio) {
            Some(d) => d,
            None => v_reflect(unit_dir, normal),
        }
    }
}

/// What `scatter` promises of an outcome, per variant, with the
/// random draws existentially quantified: the attenuation and the ray
/// origin are pinned, the direction up to the draws.
#[verifier::opaque]
pub open spec fn scatter_admissible(
    m: Material,
    ray_in: Ray,
    rec: HitRecord,
    res: Option<(Vec3, Ray)>,
) -> bool {
    match m {
        Material::Lambertian { albedo } => res matches Some((att, sc)) && att == albedo
            && sc.origin == rec.p && sc.wf() && (exists|u: Vec3|
            v_wf(u) && (exists|p: Vec3| p.wf() && v_len2(p) > 0 && u == v_unit(p))
                && sc.direction == (if v_add(rec.normal, u) == v_zero() {
                rec.normal
            } else {
                v_add(rec.normal, u)
            })),
        Material::Metal { albedo, fuzz } => exists|u: Vec3|
            v_wf(u) && v_len2(u) < SC && ({
                let dir = v_add(
                    v_reflect(v_unit(ray_in.direction), rec.normal),
                    v_scale(fuzz as int, u),
                );
                if v_dot(dir, rec.normal) > 0 {
                    res matches Some((att, sc)) && att == albedo && sc.origin == rec.p
                        && sc.direction == dir && sc.wf()
                } else {
                    res is None
                }
            }),
        Material::Dielectric { refractive_index } => res matches Some((att, sc)) && att
            == white() && sc.origin == rec.p && sc.wf() && (exists|rd: int|
            0 <= rd < SC && sc.direction == dielectric_dir(
                v_unit(ray_in.direction),
                rec.normal,
                refraction_ratio(refractive_index as int, rec.front_face),
                rd,
            )),
    }
}

impl Material {
    pub open spec fn wf(self) -> bool {
        match self {
            Material::Lambertian { albedo } => color_wf(albedo),
            Material::Metal { albedo, fuzz } => color_wf(albedo) && 0 <= fuzz <= SC,
            Material::Dielectric { refractive_index } => 0 < refractive_index
                && in_range(refractive_index as int),
        }
    }

    /// Scatter an incoming ray at a hit. `None` means the ray was
    /// absorbed. The random draws are existentially quantified in the
    /// contract; everything else is pinned exactly.
    pub fn scatter(&self, ray_in: &Ray, rec: &HitRecord, rng: &mut Rng) -> (res: Option<
        (Vec3, Ray),
    >)
        requires
            self.wf(),
            ray_in.wf(),
            rec.wf(),
            v_len2(ray_in.direction) > 0,
        ensures
            scatter_admissible(*self, *ray_in, *rec, res),
            (*self matches Material::Metal { albedo, fuzz } && fuzz == 0) ==> (match res {
                Some((att, sc)) => sc.direction == v_reflect(v_unit(ray_in.direction), rec.normal),
                None => v_dot(
                    v_reflect(v_unit(ray_in.direction), rec.normal),
                    rec.normal,
                ) <= 0,
            }),
    {
        proof {
            reveal(scatter_admissible);
        }
        match *self {
            Material::Lambertian { albedo } => {
                let u = random_unit_vector(rng);
                let d = rec.normal.add(u);
                let dir = if d.near_zero() {
                    rec.normal
                } else {
                    d
                };
                proof {
                    assert(v_wf(u) && (exists|p: Vec3| p.wf() && v_len2(p) > 0 && u == v_unit(p))
                        && dir == (if v_add(rec.normal, u) == v_zero() {
                        rec.normal
                    } else {
                        v_add(rec.normal, u)
                    }));
                }
                Some((albedo, Ray { origin: rec.p, direction: dir }))
            },
            Material::Metal { albedo, fuzz } => {
                let refl = ray_in.direction.unit().reflect(rec.normal);
                let u = random_in_unit_sphere(rng);
                let dir = refl.add(u.scale(fuzz));
                let res: Option<(Vec3, Ray)> = if dir.dot(rec.normal) > 0 {
                    Some((albedo, Ray { origin: rec.p, direction: dir }))
                } else {
                    None
                };
                proof {
                    if fuzz == 0 {
                        fx::lemma_fmul_zero(u.x as int);
                        fx::lemma_fmul_zero(u.y as int);
                        fx::lemma_fmul_zero(u.z as int);
                        assert(dir == refl);
                    }
                    assert(v_wf(u) && v_len2(u) < SC && ({
                        let dird = v_add(
                            v_reflect(v_unit(ray_in.direction), rec.normal),
                            v_scale(fuzz as int, u),
                        );
                        if v_dot(dird, rec.normal) > 0 {
                            res matches Some((att, sc)) && att == albedo && sc.origin == rec.p
                                && sc.direction == dird && sc.wf()
                        } else {
                            res is None
                        }
                    }));
                }
                res
            },
            Material::Dielectric { refractive_index } => {
                let ratio = if rec.front_face {
                    fdiv(SC, refractive_index)
                } else {
                    refractive_index
                };
                let unit_dir = ray_in.direction.unit();
                let cos = fx::fmin(unit_dir.neg().dot(rec.normal), SC);
                let s2 = fsub(SC, fmul(cos, cos));
                let sin = if s2 >= 0 {
                    fsqrt(s2)
                } else {
                    0
                };
                let rd = random_fx_unit(rng);
                let dir = if fmul(ratio, sin) > SC || schlick(cos, ratio) > rd {
                    unit_dir.reflect(rec.normal)
                } else {
                    match unit_dir.refract(rec.normal, ratio) {
                        Some(d) => d,
                        None => unit_dir.reflect(rec.normal),
                    }
                };
                proof {
                    assert(ratio as int == refraction_ratio(
                        refractive_index as int,
                        rec.front_face,
                    ));
                    assert(cos as int == cos_theta_s(v_unit(ray_in.direction), rec.normal));
                    assert(sin as int == sin_theta_s(v_unit(ray_in.direction), rec.normal));
                    assert(0 <= rd < SC && dir == dielectric_dir(
                        v_unit(ray_in.direction),
                        rec.normal,
                        ratio as int,
                        rd as int,
                    ));
                }
                Some((white_color(), Ray { origin: rec.p, direction: dir }))
            },
        }
    }
}

/// A dielectric with refractive index 1 under normal incidence (the
/// incoming unit direction is the exact opposite of an exact unit
/// normal) always refracts — no draw can choose reflection — and the
/// refracted direction is the incoming direction, unbent.
pub proof fn lemma_dielectric_identity(n: Vec3, rd: int)
    requires
        n.wf(),
        v_dot(n, n) == SC,
        0 <= rd < SC,
    ensures
        refraction_ratio(SC as int, true) == SC,
        v_refract(v_neg(n), n, SC as int) == Some(v_neg(n)),
        dielectric_dir(v_neg(n), n, SC as int, rd) == v_neg(n),
{
    let uv = v_neg(n);
    fx::lemma_fdiv_one(SC as int);
    assert(v_neg(uv) == n);
    assert(cos_theta_s(uv, n) == SC);
    fx::lemma_fmul_one(SC as int);
    assert(fsub_s(SC as int, fmul_s(SC as int, SC as int)) == 0);
    assert(fx::isqrt_s(0nat) == 0);
    assert(sin_theta_s(uv, n) == 0);
    fx::lemma_fmul_zero(SC as int);
    assert(fmul_s(SC as int, sin_theta_s(uv, n)) == 0);
    // The Schlick reflectance at ratio 1 and cosine 1 is exactly zero.
    fx::lemma_fdiv_zero(fadd_s(SC as int, SC as int));
    fx::lemma_fmul_zero(0);
    assert(schlick_s(SC as int, SC as int) == 0) by {
        let r0 = fdiv_s(fsub_s(SC as int, SC as int), fadd_s(SC as int, SC as int));
        assert(r0 == 0);
        fx::lemma_fmul_zero(fmul_s(0, 0));
        fx::lemma_fmul_zero(fsub_s(SC as int, SC as int));
        fx::lemma_fmul_zero(fmul_s(SC as int, 0));
        assert(fmul_s(fsub_s(SC as int, 0), 0) == 0) by {
            fx::lemma_fmul_zero(fsub_s(SC as int, 0));
        }
    }
    // The refraction computation returns the incoming direction.
    fx::lemma_fmul_one(n.x as int);
    fx::lemma_fmul_one(n.y as int);
    fx::lemma_fmul_one(n.z as int);
    assert(v_scale(SC as int, n) == n);
    assert(v_add(uv, n) == v_zero());
    fx::lemma_fmul_zero(0);
    assert(v_scale(SC as int, v_zero()) == v_zero());
    assert(v_len2(v_zero()) == 0);
    assert(fsub_s(SC as int, 0) == SC);
    fx::lemma_fsqrt_one();
    fx::lemma_fmul_neg_one(n.x as int);
    fx::lemma_fmul_neg_one(n.y as int);
    fx::lemma_fmul_neg_one(n.z as int);
    assert(v_scale(-(SC as int), n) == uv);
    assert(v_add(v_zero(), v_scale(-(SC as int), n)) == uv);
    assert(v_refract(uv, n, SC as int) == Some(uv));
}

/// Evaluate the Schlick reflectance approximation.
pub fn schlick(cos_theta: i64, ratio: i64) -> (r: i64)
    requires
        in_range(cos_theta as int),
        0 <= ratio,
        in_range(ratio as int),
    ensures
        r as int == schlick_s(cos_theta as int, ratio as int),
        in_range(r as int),
{
    let den = fadd(SC, ratio);
    let r0 = fdiv(fsub(SC, ratio), den);
    let r0sq = fmul(r0, r0);
    let m = fsub(SC, cos_theta);
    let m2 = fmul(m, m);
    let m5 = fmul(fmul(m2, m2), m);
    fadd(r0sq, fmul(fsub(SC, r0sq), m5))
}

/// The pure-white attenuation of glass.
pub fn white_color() -> (r: Vec3)
    ensures
        r == white(),
        r.wf(),
{
    Vec3 { x: SC, y: SC, z: SC }
}

} // verus!
