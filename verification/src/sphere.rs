//! Spheres and their ray-intersection query, specified exactly over
//! the fixed-point algebra via the half-coefficient quadratic.

use vstd::prelude::*;
use crate::fx;
use crate::fx::{SC, in_range, fadd_s, fsub_s, fmul_s, fdiv_s, fsqrt_s, fadd, fsub, fmul, fdiv, fneg, fsqrt};
use crate::vec3::{Vec3, v_sub, v_neg, v_divs, v_dot, v_len2, lemma_len2_nonneg};
use crate::ray::{Ray, ray_at};
use crate::material::Material;
use crate::hit::HitRecord;

verus! {

#[derive(Clone, Copy, PartialEq, Eq, Structural, Debug)]
pub struct Sphere {
    pub center: Vec3,
    pub radius: i64,
    pub mat: Material,
}

/// The quadratic coefficient `a = |direction|^2`.
pub open spec fn sph_a(ray: Ray) -> int {
    v_len2(ray.direction)
}

/// The half coefficient `h = dot(origin - center, direction)`.
pub open spec fn sph_h(s: Sphere, ray: Ray) -> int {
    v_dot(v_sub(ray.origin, s.center), ray.direction)
}

/// The constant coefficient `c = |origin - center|^2 - radius^2`.
pub open spec fn sph_c(s: Sphere, ray: Ray) -> int {
    fsub_s(v_len2(v_sub(ray.origin, s.center)), fmul_s(s.radius as int, s.radius as int))
}

/// The discriminant `h^2 - a*c` of the half-coefficient quadratic.
pub open spec fn sph_disc(s: Sphere, ray: Ray) -> int {
    fsub_s(fmul_s(sph_h(s, ray), sph_h(s, ray)), fmul_s(sph_a(ray), sph_c(s, ray)))
}

/// The smaller root `(-h - sqrt(disc)) / a`.
pub open spec fn sph_root1(s: Sphere, ray: Ray) -> int {
    fdiv_s(fsub_s(-sph_h(s, ray), fsqrt_s(sph_disc(s, ray))), sph_a(ray))
}

/// The larger root `(-h + sqrt(disc)) / a`.
pub open spec fn sph_root2(s: Sphere, ray: Ray) -> int {
    fdiv_s(fadd_s(-sph_h(s, ray), fsqrt_s(sph_disc(s, ray))), sph_a(ray))
}

/// The parameter at which the ray first meets the sphere strictly
/// inside `(t_min, t_max)`: the smaller root if it qualifies, else the
/// larger, else no hit. A ray with a zero direction hits nothing.
pub open spec fn sph_hit_t(s: Sphere, ray: Ray, t_min: int, t_max: int) -> Option<int> {
    if sph_a(ray) == 0 {
        None
    } else if sph_disc(s, ray) < 0 {
        None
    } else if t_min < sph_root1(s, ray) && sph_root1(s, ray) < t_max {
        Some(sph_root1(s, ray))
    } else if t_min < sph_root2(s, ray) && sph_root2(s, ray) < t_max {
        Some(sph_root2(s, ray))
    } else {
        None
    }
}

/// The record produced at parameter `t`: the hit point, the normal
/// flipped to oppose the incoming ray, and the sphere's material. A
/// negative radius (the hollow-glass idiom) inverts the outward
/// normal, as the division by the radius makes it.
pub open spec fn sph_record(s: Sphere, ray: Ray, t: int) -> HitRecord
    recommends
        s.radius != 0,
        in_range(t),
{
    let p = ray_at(ray, t);
    let outward = v_divs(v_sub(p, s.center), s.radius as int);
    let front = v_dot(ray.direction, outward) < 0;
    HitRecord {
        p,
        normal: if front {
            outward
        } else {
            v_neg(outward)
        },
        t: t as i64,
        front_face: front,
        mat: s.mat,
    }
}

impl Sphere {
    pub open spec fn wf(self) -> bool {
        self.center.wf() && self.radius != 0 && in_range(self.radius as int) && self.mat.wf()
    }

    pub fn new(center: Vec3, radius: i64, mat: Material) -> (s: Sphere)
        requires
            center.wf(),
            radius != 0,
            in_range(radius as int),
            mat.wf(),
        ensures
            s == (Sphere { center, radius, mat }),
            s.wf(),
    {
        Sphere { center, radius, mat }
    }

    /// Intersect a ray with this sphere inside the open interval
    /// `(t_min, t_max)`.
    pub fn hit(&self, ray: &Ray, t_min: i64, t_max: i64) -> (res: Option<HitRecord>)
        requires
            self.wf(),
            ray.wf(),
            in_range(t_min as int),
            in_range(t_max as int),
        ensures
            res == match sph_hit_t(*self, *ray, t_min as int, t_max as int) {
                Some(t) => Some(sph_record(*self, *ray, t)),
                None => None::<HitRecord>,
            },
            res matches Some(rec) ==> rec.wf(),
    {
        let a = ray.direction.length_squared();
        if a == 0 {
            return None;
        }
        let oc = ray.origin.sub(self.center);
        let h = oc.dot(ray.direction);
        let c = fsub(oc.length_squared(), fmul(self.radius, self.radius));
        let disc = fsub(fmul(h, h), fmul(a, c));
        if disc < 0 {
            return None;
        }
        let sqrtd = fsqrt(disc);
        let root1 = fdiv(fsub(fneg(h), sqrtd), a);
        let root;
        if t_min < root1 && root1 < t_max {
            root = root1;
        } else {
            let root2 = fdiv(fadd(fneg(h), sqrtd), a);
            if t_min < root2 && root2 < t_max {
                root = root2;
            } else {
                return None;
            }
        }
        let p = ray.at(root);
        let outward = p.sub(self.center).divs(self.radius);
        let front = ray.direction.dot(outward) < 0;
        let normal = if front {
            outward
        } else {
            outward.neg()
        };
        Some(HitRecord { p, normal, t: root, front_face: front, mat: self.mat })
    }
}

/// The smaller root never exceeds the larger one.
pub proof fn lemma_root_order(s: Sphere, ray: Ray)
    requires
        sph_a(ray) > 0,
        sph_disc(s, ray) >= 0,
    ensures
        sph_root1(s, ray) <= sph_root2(s, ray),
{
    let h = sph_h(s, ray);
    let sq = fsqrt_s(sph_disc(s, ray));
    assert(sq >= 0);
    assert(fsub_s(-h, sq) <= fadd_s(-h, sq));
    fx::lemma_fdiv_mono(fsub_s(-h, sq), fadd_s(-h, sq), sph_a(ray));
}

/// Shrinking the far end of the search window keeps exactly the hits
/// that fall short of the new end: the query at `(t_min, c)` returns
/// the full-window hit when its parameter is below `c`, else nothing.
pub proof fn lemma_hit_window(s: Sphere, ray: Ray, t_min: int, c: int, t_max: int)
    requires
        c <= t_max,
    ensures
        sph_hit_t(s, ray, t_min, c) == match sph_hit_t(s, ray, t_min, t_max) {
            Some(t) => if t < c {
                Some(t)
            } else {
                None::<int>
            },
            None => None::<int>,
        },
{
    lemma_len2_nonneg(ray.direction);
    if sph_a(ray) != 0 && sph_disc(s, ray) >= 0 {
        lemma_root_order(s, ray);
    }
}

} // verus!
