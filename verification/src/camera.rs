//! The thin-lens camera: an orthonormal basis and viewport geometry
//! derived once at construction, and the per-sample ray query with its
//! depth-of-field lens jitter.
//!
//! The vertical field of view enters as the tangent of half the
//! vertical angle, already in fixed point; the trigonometry itself is
//! the caller's concern.

use vstd::prelude::*;
use crate::fx;
use crate::fx::{SC, in_range, abs_s, fmul_s, fdiv_s};
use crate::vec3::{
    Vec3, FX_TWO, v_wf, v_zero, v_add, v_sub, v_scale, v_divs, v_cross, v_len2, v_unit,
    lemma_unit_ball_components,
};
use crate::ray::ray_at;
use crate::ray::Ray;
use crate::rng::{Rng, random_in_unit_disk};

verus! {

#[derive(Clone, Copy, PartialEq, Eq, Structural, Debug)]
pub struct Camera {
    pub origin: Vec3,
    pub lower_left: Vec3,
    pub horizontal: Vec3,
    pub vertical: Vec3,
    pub u: Vec3,
    pub v: Vec3,
    pub lens_radius: i64,
}

/// What construction derives from the eye position, target, up hint,
/// tangent of half the vertical field of view, aspect ratio, aperture
/// and focus distance.
pub open spec fn cam_spec(
    look_from: Vec3,
    look_at: Vec3,
    vup: Vec3,
    tan_half_vfov: int,
    aspect_ratio: int,
    aperture: int,
    focus_dist: int,
) -> Camera {
    let w = v_unit(v_sub(look_from, look_at));
    let u = v_unit(v_cross(vup, w));
    let v = v_cross(w, u);
    let vh = fmul_s(FX_TWO as int, tan_half_vfov);
    let vw = fmul_s(aspect_ratio, vh);
    let horizontal = v_scale(fmul_s(focus_dist, vw), u);
    let vertical = v_scale(fmul_s(focus_dist, vh), v);
    let lower_left = v_sub(
        v_sub(v_sub(look_from, v_divs(horizontal, FX_TWO as int)), v_divs(vertical, FX_TWO as int)),
        v_scale(focus_dist, w),
    );
    Camera {
        origin: look_from,
        lower_left,
        horizontal,
        vertical,
        u,
        v,
        lens_radius: fdiv_s(aperture, FX_TWO as int) as i64,
    }
}

/// The ray cast for normalized image coordinates `(s, t)` when the
/// lens jitter drew the disk point `d`.
pub open spec fn cam_ray(c: Camera, s: int, t: int, d: Vec3) -> Ray {
    let rd = v_scale(c.lens_radius as int, d);
    let offset = v_add(v_scale(rd.x as int, c.u), v_scale(rd.y as int, c.v));
    let orig = v_add(c.origin, offset);
    let dir = v_sub(
        v_add(v_add(c.lower_left, v_scale(s, c.horizontal)), v_scale(t, c.vertical)),
        orig,
    );
    Ray { origin: orig, direction: dir }
}

/// The focal-plane identity: absent saturation in the direction
/// arithmetic, the cast ray evaluated at parameter 1 lands on
/// `lower_left + s*horizontal + t*vertical` — a point independent of
/// the lens sample `d`, which is what keeps that plane in focus.
pub proof fn lemma_focal_plane(c: Camera, s: int, t: int, d: Vec3)
    requires
        c.wf(),
        in_range(s),
        in_range(t),
        v_wf(d),
        ({
            let target = v_add(v_add(c.lower_left, v_scale(s, c.horizontal)), v_scale(t, c.vertical));
            let orig = cam_ray(c, s, t, d).origin;
            in_range(target.x - orig.x) && in_range(target.y - orig.y) && in_range(
                target.z - orig.z,
            )
        }),
    ensures
        ray_at(cam_ray(c, s, t, d), SC as int) == v_add(
            v_add(c.lower_left, v_scale(s, c.horizontal)),
            v_scale(t, c.vertical),
        ),
{
    let r = cam_ray(c, s, t, d);
    fx::lemma_fmul_one(r.direction.x as int);
    fx::lemma_fmul_one(r.direction.y as int);
    fx::lemma_fmul_one(r.direction.z as int);
    assert(v_scale(SC as int, r.direction) == r.direction);
}

/// The lens jitter stays on the lens: the scaled disk point has no
/// out-of-plane component and each in-plane component's magnitude is
/// at most the lens radius (half the aperture, as construction sets
/// it); the ray origin is then offset from the eye only inside the
/// u-v plane, as `cam_ray` spells out.
pub proof fn lemma_lens_offset_bounded(c: Camera, d: Vec3)
    requires
        c.wf(),
        v_wf(d),
        v_len2(d) < SC,
        d.z == 0,
    ensures
        ({
            let rd = v_scale(c.lens_radius as int, d);
            abs_s(rd.x as int) <= abs_s(c.lens_radius as int) && abs_s(rd.y as int) <= abs_s(
                c.lens_radius as int,
            ) && rd.z == 0
        }),
{
    crate::vec3::lemma_len2_nonneg(d);
    lemma_unit_ball_components(d);
    fx::lemma_fmul_abs_bound(c.lens_radius as int, d.x as int);
    fx::lemma_fmul_abs_bound(c.lens_radius as int, d.y as int);
    fx::lemma_fmul_zero(c.lens_radius as int);
}

impl Camera {
    pub open spec fn wf(self) -> bool {
        self.origin.wf() && self.lower_left.wf() && self.horizontal.wf() && self.vertical.wf()
            && self.u.wf() && self.v.wf() && in_range(self.lens_radius as int)
    }

    pub fn new(
        look_from: Vec3,
        look_at: Vec3,
        vup: Vec3,
        tan_half_vfov: i64,
        aspect_ratio: i64,
        aperture: i64,
        focus_dist: i64,
    ) -> (c: Camera)
        requires
            look_from.wf(),
            look_at.wf(),
            vup.wf(),
            in_range(tan_half_vfov as int),
            in_range(aspect_ratio as int),
            in_range(aperture as int),
            in_range(focus_dist as int),
            v_len2(v_sub(look_from, look_at)) > 0,
            v_len2(v_cross(vup, v_unit(v_sub(look_from, look_at)))) > 0,
        ensures
            c == cam_spec(
                look_from,
                look_at,
                vup,
                tan_half_vfov as int,
                aspect_ratio as int,
                aperture as int,
                focus_dist as int,
            ),
            c.wf(),
    {
        let w = look_from.sub(look_at).unit();
        let u = vup.cross(w).unit();
        let v = w.cross(u);
        let vh = fx::fmul(FX_TWO, tan_half_vfov);
        let vw = fx::fmul(aspect_ratio, vh);
        let horizontal = u.scale(fx::fmul(focus_dist, vw));
        let vertical = v.scale(fx::fmul(focus_dist, vh));
        let lower_left = look_from.sub(horizontal.divs(FX_TWO)).sub(vertical.divs(FX_TWO)).sub(
            w.scale(focus_dist),
        );
        Camera {
            origin: look_from,
            lower_left,
            horizontal,
            vertical,
            u,
            v,
            lens_radius: fx::fdiv(aperture, FX_TWO),
        }
    }

    /// Cast the ray for normalized image coordinates `(s, t)`. The lens
    /// offset is a random disk point; with a closed aperture (zero lens
    /// radius) the ray is the deterministic pinhole ray.
    pub fn get_ray(&self, s: i64, t: i64, rng: &mut Rng) -> (r: Ray)
        requires
            self.wf(),
            in_range(s as int),
            in_range(t as int),
        ensures
            r.wf(),
            exists|d: Vec3|
                v_wf(d) && v_len2(d) < SC && d.z == 0 && r == cam_ray(*self, s as int, t as int, d),
            self.lens_radius == 0 ==> r == cam_ray(*self, s as int, t as int, v_zero()),
    {
        let d = random_in_unit_disk(rng);
        let rd = d.scale(self.lens_radius);
        let offset = self.u.scale(rd.x).add(self.v.scale(rd.y));
        let orig = self.origin.add(offset);
        let dir = self.lower_left.add(self.horizontal.scale(s)).add(self.vertical.scale(t)).sub(
            orig,
        );
        let r = Ray { origin: orig, direction: dir };
        proof {
            assert(v_wf(d) && v_len2(d) < SC && d.z == 0 && r == cam_ray(
                *self,
                s as int,
                t as int,
                d,
            ));
            if self.lens_radius == 0 {
                fx::lemma_fmul_zero(d.x as int);
                fx::lemma_fmul_zero(d.y as int);
                fx::lemma_fmul_zero(d.z as int);
                fx::lemma_fmul_zero(0);
                assert(rd == v_scale(0, v_zero()));
            }
        }
        r
    }
}

} // verus!
