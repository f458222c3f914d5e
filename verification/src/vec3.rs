//! Three-component vectors over the fixed-point algebra, used for
//! points, directions and colors alike.

use vstd::prelude::*;
use crate::fx;
use crate::fx::{
    SC, in_range, abs_s, fadd_s, fsub_s, fmul_s, fdiv_s, fsqrt_s, fadd, fsub, fmul, fdiv, fneg,
    fsqrt,
};

verus! {

/// Twice the representation of 1, used by the reflection formula.
pub const FX_TWO: i64 = 131072;

#[derive(Clone, Copy, PartialEq, Eq, Structural, Debug)]
pub struct Vec3 {
    pub x: i64,
    pub y: i64,
    pub z: i64,
}

pub open spec fn v_wf(v: Vec3) -> bool {
    in_range(v.x as int) && in_range(v.y as int) && in_range(v.z as int)
}

pub open spec fn v_zero() -> Vec3 {
    Vec3 { x: 0, y: 0, z: 0 }
}

pub open spec fn v_add(a: Vec3, b: Vec3) -> Vec3 {
    Vec3 {
        x: fadd_s(a.x as int, b.x as int) as i64,
        y: fadd_s(a.y as int, b.y as int) as i64,
        z: fadd_s(a.z as int, b.z as int) as i64,
    }
}

pub open spec fn v_sub(a: Vec3, b: Vec3) -> Vec3 {
    Vec3 {
        x: fsub_s(a.x as int, b.x as int) as i64,
        y: fsub_s(a.y as int, b.y as int) as i64,
        z: fsub_s(a.z as int, b.z as int) as i64,
    }
}

pub open spec fn v_neg(a: Vec3) -> Vec3 {
    Vec3 {
        x: (-(a.x as int)) as i64,
        y: (-(a.y as int)) as i64,
        z: (-(a.z as int)) as i64,
    }
}

/// Scale every component by the fixed-point scalar `t`.
pub open spec fn v_scale(t: int, a: Vec3) -> Vec3 {
    Vec3 {
        x: fmul_s(t, a.x as int) as i64,
        y: fmul_s(t, a.y as int) as i64,
        z: fmul_s(t, a.z as int) as i64,
    }
}

/// Component-wise product, used for color attenuation.
pub open spec fn v_cmul(a: Vec3, b: Vec3) -> Vec3 {
    Vec3 {
        x: fmul_s(a.x as int, b.x as int) as i64,
        y: fmul_s(a.y as int, b.y as int) as i64,
        z: fmul_s(a.z as int, b.z as int) as i64,
    }
}

/// Divide every component by the fixed-point scalar `d`.
pub open spec fn v_divs(a: Vec3, d: int) -> Vec3
    recommends
        d != 0,
{
    Vec3 {
        x: fdiv_s(a.x as int, d) as i64,
        y: fdiv_s(a.y as int, d) as i64,
        z: fdiv_s(a.z as int, d) as i64,
    }
}

pub open spec fn v_dot(a: Vec3, b: Vec3) -> int {
    fadd_s(
        fadd_s(fmul_s(a.x as int, b.x as int), fmul_s(a.y as int, b.y as int)),
        fmul_s(a.z as int, b.z as int),
    )
}

pub open spec fn v_cross(a: Vec3, b: Vec3) -> Vec3 {
    Vec3 {
        x: fsub_s(fmul_s(a.y as int, b.z as int), fmul_s(a.z as int, b.y as int)) as i64,
        y: fsub_s(fmul_s(a.z as int, b.x as int), fmul_s(a.x as int, b.z as int)) as i64,
        z: fsub_s(fmul_s(a.x as int, b.y as int), fmul_s(a.y as int, b.x as int)) as i64,
    }
}

pub open spec fn v_len2(a: Vec3) -> int {
    v_dot(a, a)
}

pub open spec fn v_len(a: Vec3) -> int {
    fsqrt_s(v_len2(a))
}

/// The unit vector of `a`: `a` divided by its length.
pub open spec fn v_unit(a: Vec3) -> Vec3
    recommends
        v_len(a) > 0,
{
    v_divs(a, v_len(a))
}

/// Mirror reflection: `v - 2*dot(v,n)*n`.
pub open spec fn v_reflect(v: Vec3, n: Vec3) -> Vec3 {
    v_sub(v, v_scale(fmul_s(FX_TWO as int, v_dot(v, n)), n))
}

/// Snell refraction of the unit direction `uv` at normal `n` with
/// refraction ratio `eta`; `None` when there is no solution (total
/// internal reflection).
pub open spec fn v_refract(uv: Vec3, n: Vec3, eta: int) -> Option<Vec3> {
    let d = v_dot(v_neg(uv), n);
    let cos = if d <= SC { d } else { SC as int };
    let perp = v_scale(eta, v_add(uv, v_scale(cos, n)));
    let k = fsub_s(SC as int, v_len2(perp));
    if k < 0 {
        None
    } else {
        Some(v_add(perp, v_scale(-fsqrt_s(k), n)))
    }
}

/// The squared length of a vector is never negative.
pub proof fn lemma_len2_nonneg(a: Vec3)
    ensures
        v_len2(a) >= 0,
{
    fx::lemma_fmul_square_nonneg(a.x as int);
    fx::lemma_fmul_square_nonneg(a.y as int);
    fx::lemma_fmul_square_nonneg(a.z as int);
}

/// A vector inside the closed unit ball has every component of
/// magnitude at most 1.
pub proof fn lemma_unit_ball_components(a: Vec3)
    requires
        a.wf(),
        v_len2(a) <= SC,
    ensures
        abs_s(a.x as int) <= SC,
        abs_s(a.y as int) <= SC,
        abs_s(a.z as int) <= SC,
{
    let xx = fmul_s(a.x as int, a.x as int);
    let yy = fmul_s(a.y as int, a.y as int);
    let zz = fmul_s(a.z as int, a.z as int);
    fx::lemma_fmul_square_nonneg(a.x as int);
    fx::lemma_fmul_square_nonneg(a.y as int);
    fx::lemma_fmul_square_nonneg(a.z as int);
    assert(fadd_s(xx, yy) >= xx && fadd_s(xx, yy) >= yy);
    assert(v_len2(a) >= xx && v_len2(a) >= yy && v_len2(a) >= zz);
    fx::lemma_square_le_one(a.x as int);
    fx::lemma_square_le_one(a.y as int);
    fx::lemma_square_le_one(a.z as int);
}

/// A vector with positive squared length has positive length.
pub proof fn lemma_len_pos(a: Vec3)
    requires
        v_len2(a) > 0,
    ensures
        v_len(a) > 0,
{
    let m = (v_len2(a) * SC) as nat;
    fx::lemma_isqrt_bounds(m);
    assert(v_len2(a) * SC >= SC) by (nonlinear_arith)
        requires
            v_len2(a) >= 1,
    ;
    if fx::isqrt_s(m) == 0 {
        assert(m < 1) by (nonlinear_arith)
            requires
                m < (fx::isqrt_s(m) + 1) * (fx::isqrt_s(m) + 1),
                fx::isqrt_s(m) == 0,
        ;
    }
}

/// Reflecting a vector aligned with the (exact unit, axis-aligned)
/// normal mirrors it and preserves its magnitude: the reflection is
/// the exact negation, so its squared length is unchanged.
pub proof fn lemma_reflect_aligned(vy: i64)
    requires
        in_range(2 * (vy as int)),
    ensures
        v_reflect(Vec3 { x: 0, y: vy, z: 0 }, Vec3 { x: 0, y: SC, z: 0 }) == v_neg(
            Vec3 { x: 0, y: vy, z: 0 },
        ),
        v_len2(v_reflect(Vec3 { x: 0, y: vy, z: 0 }, Vec3 { x: 0, y: SC, z: 0 })) == v_len2(
            Vec3 { x: 0, y: vy, z: 0 },
        ),
{
    let v = Vec3 { x: 0, y: vy, z: 0 };
    let n = Vec3 { x: 0, y: SC, z: 0 };
    fx::lemma_fmul_zero(0);
    fx::lemma_fmul_zero(SC as int);
    fx::lemma_fmul_one(vy as int);
    assert(v_dot(v, n) == vy as int);
    assert(fmul_s(FX_TWO as int, vy as int) == 2 * (vy as int)) by {
        let m = abs_s(vy as int);
        vstd::arithmetic::div_mod::lemma_div_multiples_vanish(2 * m, SC as int);
        assert(abs_s(FX_TWO as int) * m == (SC as int) * (2 * m)) by (nonlinear_arith)
            requires
                abs_s(FX_TWO as int) == 2 * (SC as int),
                m == abs_s(vy as int),
        ;
        assert((abs_s(FX_TWO as int) * m) / (SC as int) == 2 * m);
        if vy < 0 {
            assert(fx::sgn2_s(FX_TWO as int, vy as int) * (2 * m) == 2 * (vy as int))
                by (nonlinear_arith)
                requires
                    fx::sgn2_s(FX_TWO as int, vy as int) == -1,
                    m == -(vy as int),
            ;
        } else {
            assert(fx::sgn2_s(FX_TWO as int, vy as int) * (2 * m) == 2 * (vy as int))
                by (nonlinear_arith)
                requires
                    fx::sgn2_s(FX_TWO as int, vy as int) == 1,
                    m == vy as int,
            ;
        }
        assert(fx::clip_s(fx::sgn2_s(FX_TWO as int, vy as int) * (2 * m)) == 2 * (vy as int));
    }
    fx::lemma_fmul_one(2 * (vy as int));
    fx::lemma_fmul_zero(2 * (vy as int));
    assert(v_scale(fmul_s(FX_TWO as int, v_dot(v, n)), n) == Vec3 {
        x: 0,
        y: (2 * (vy as int)) as i64,
        z: 0,
    });
    let r = v_reflect(v, n);
    assert(r.y as int == fsub_s(vy as int, 2 * (vy as int)));
    assert(r == v_neg(v));
    assert(fmul_s(-(vy as int), -(vy as int)) == fmul_s(vy as int, vy as int));
}

impl Vec3 {
    pub open spec fn wf(self) -> bool {
        v_wf(self)
    }

    pub fn new(x: i64, y: i64, z: i64) -> (r: Vec3)
        requires
            in_range(x as int),
            in_range(y as int),
            in_range(z as int),
        ensures
            r == (Vec3 { x, y, z }),
            r.wf(),
    {
        Vec3 { x, y, z }
    }

    pub fn add(self, b: Vec3) -> (r: Vec3)
        requires
            self.wf(),
            b.wf(),
        ensures
            r == v_add(self, b),
            r.wf(),
    {
        Vec3 { x: fadd(self.x, b.x), y: fadd(self.y, b.y), z: fadd(self.z, b.z) }
    }

    pub fn sub(self, b: Vec3) -> (r: Vec3)
        requires
            self.wf(),
            b.wf(),
        ensures
            r == v_sub(self, b),
            r.wf(),
    {
        Vec3 { x: fsub(self.x, b.x), y: fsub(self.y, b.y), z: fsub(self.z, b.z) }
    }

    pub fn neg(self) -> (r: Vec3)
        requires
            self.wf(),
        ensures
            r == v_neg(self),
            r.wf(),
    {
        Vec3 { x: fneg(self.x), y: fneg(self.y), z: fneg(self.z) }
    }

    pub fn scale(self, t: i64) -> (r: Vec3)
        requires
            self.wf(),
            in_range(t as int),
        ensures
            r == v_scale(t as int, self),
            r.wf(),
    {
        Vec3 { x: fmul(t, self.x), y: fmul(t, self.y), z: fmul(t, self.z) }
    }

    pub fn cmul(self, b: Vec3) -> (r: Vec3)
        requires
            self.wf(),
            b.wf(),
        ensures
            r == v_cmul(self, b),
            r.wf(),
    {
        Vec3 { x: fmul(self.x, b.x), y: fmul(self.y, b.y), z: fmul(self.z, b.z) }
    }

    pub fn divs(self, d: i64) -> (r: Vec3)
        requires
            self.wf(),
            in_range(d as int),
            d != 0,
        ensures
            r == v_divs(self, d as int),
            r.wf(),
    {
        Vec3 { x: fdiv(self.x, d), y: fdiv(self.y, d), z: fdiv(self.z, d) }
    }

    pub fn dot(self, b: Vec3) -> (r: i64)
        requires
            self.wf(),
            b.wf(),
        ensures
            r as int == v_dot(self, b),
            in_range(r as int),
    {
        fadd(fadd(fmul(self.x, b.x), fmul(self.y, b.y)), fmul(self.z, b.z))
    }

    pub fn cross(self, b: Vec3) -> (r: Vec3)
        requires
            self.wf(),
            b.wf(),
        ensures
            r == v_cross(self, b),
            r.wf(),
    {
        Vec3 {
            x: fsub(fmul(self.y, b.z), fmul(self.z, b.y)),
            y: fsub(fmul(self.z, b.x), fmul(self.x, b.z)),
            z: fsub(fmul(self.x, b.y), fmul(self.y, b.x)),
        }
    }

    pub fn length_squared(self) -> (r: i64)
        requires
            self.wf(),
        ensures
            r as int == v_len2(self),
            0 <= r,
            in_range(r as int),
    {
        proof {
            lemma_len2_nonneg(self);
        }
        self.dot(self)
    }

    pub fn length(self) -> (r: i64)
        requires
            self.wf(),
        ensures
            r as int == v_len(self),
            0 <= r,
            in_range(r as int),
    {
        let l2 = self.length_squared();
        fsqrt(l2)
    }

    /// Normalize; the caller must rule out the zero-length case.
    pub fn unit(self) -> (r: Vec3)
        requires
            self.wf(),
            v_len2(self) > 0,
        ensures
            r == v_unit(self),
            r.wf(),
    {
        proof {
            lemma_len_pos(self);
        }
        let l = self.length();
        self.divs(l)
    }

    /// True exactly on the zero vector: the smallest representable
    /// magnitude already counts as a degenerate direction.
    pub fn near_zero(self) -> (r: bool)
        ensures
            r == (self == v_zero()),
    {
        self.x == 0 && self.y == 0 && self.z == 0
    }

    pub fn reflect(self, n: Vec3) -> (r: Vec3)
        requires
            self.wf(),
            n.wf(),
        ensures
            r == v_reflect(self, n),
            r.wf(),
    {
        let d = self.dot(n);
        let k = fmul(FX_TWO, d);
        self.sub(n.scale(k))
    }

    pub fn refract(self, n: Vec3, eta: i64) -> (r: Option<Vec3>)
        requires
            self.wf(),
            n.wf(),
            in_range(eta as int),
        ensures
            r == v_refract(self, n, eta as int),
            r matches Some(v) ==> v.wf(),
    {
        let d = self.neg().dot(n);
        let cos = fx::fmin(d, SC);
        let perp = self.add(n.scale(cos)).scale(eta);
        proof {
            lemma_len2_nonneg(perp);
        }
        let l2 = perp.length_squared();
        let k = fsub(SC, l2);
        if k < 0 {
            None
        } else {
            let s = fsqrt(k);
            Some(perp.add(n.scale(fneg(s))))
        }
    }
}

} // verus!
