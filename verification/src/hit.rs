//! Hit records and the world: an insertion-ordered collection of
//! spheres queried for the nearest intersection inside an interval.

use vstd::prelude::*;
use crate::fx::in_range;
use crate::vec3::Vec3;
use crate::ray::Ray;
use crate::material::Material;
use crate::sphere::{Sphere, sph_hit_t, sph_record, lemma_hit_window};

verus! {

#[derive(Clone, Copy, PartialEq, Eq, Structural, Debug)]
pub struct HitRecord {
    /// The hit point.
    pub p: Vec3,
    /// Unit-ish normal, flipped to oppose the incoming ray.
    pub normal: Vec3,
    /// The ray parameter of the hit.
    pub t: i64,
    /// Whether the outer surface was struck (the normal was not flipped).
    pub front_face: bool,
    /// The material at the hit point.
    pub mat: Material,
}

impl HitRecord {
    pub open spec fn wf(self) -> bool {
        self.p.wf() && self.normal.wf() && in_range(self.t as int) && self.mat.wf()
    }
}

pub struct World {
    pub spheres: Vec<Sphere>,
}

/// The positive outcome of the nearest-hit query: `rec` is a real hit
/// of some sphere at that sphere's entry parameter, and no sphere is
/// hit at a smaller parameter inside the window.
#[verifier::opaque]
pub open spec fn world_hit_some(
    w: World,
    ray: Ray,
    t_min: int,
    t_max: int,
    rec: HitRecord,
) -> bool {
    &&& rec.wf()
    &&& exists|i: int|
        0 <= i < w.spheres@.len() && #[trigger] sph_hit_t(w.spheres@[i], ray, t_min, t_max)
            == Some(rec.t as int) && rec == sph_record(w.spheres@[i], ray, rec.t as int)
    &&& forall|j: int|
        0 <= j < w.spheres@.len() && #[trigger] sph_hit_t(w.spheres@[j], ray, t_min, t_max)
            is Some ==> rec.t as int <= sph_hit_t(w.spheres@[j], ray, t_min, t_max)->Some_0
}

impl World {
    pub open spec fn wf(self) -> bool {
        forall|i: int| 0 <= i < self.spheres@.len() ==> self.spheres@[i].wf()
    }

    pub fn new() -> (w: World)
        ensures
            w.spheres@.len() == 0,
            w.wf(),
    {
        World { spheres: Vec::new() }
    }

    pub fn push(&mut self, s: Sphere)
        requires
            s.wf(),
        ensures
            final(self).spheres@ == old(self).spheres@.push(s),
            old(self).wf() ==> final(self).wf(),
    {
        self.spheres.push(s);
    }

    /// The nearest qualifying intersection over all spheres: the
    /// result is a real hit of some sphere, and no sphere is hit at a
    /// smaller parameter inside the window.
    pub fn hit(&self, ray: &Ray, t_min: i64, t_max: i64) -> (res: Option<HitRecord>)
        requires
            self.wf(),
            ray.wf(),
            in_range(t_min as int),
            in_range(t_max as int),
        ensures
            match res {
                None => forall|j: int|
                    0 <= j < self.spheres@.len() ==> sph_hit_t(
                        self.spheres@[j],
                        *ray,
                        t_min as int,
                        t_max as int,
                    ) is None,
                Some(rec) => rec.wf() && world_hit_some(*self, *ray, t_min as int, t_max as int, rec),
            },
    {
        let ghost full_min = t_min as int;
        let ghost full_max = t_max as int;
        let mut closest: i64 = t_max;
        let mut res: Option<HitRecord> = None;
        let n = self.spheres.len();
        let mut k: usize = 0;
        while k < n
            invariant
                n == self.spheres@.len(),
                0 <= k <= n,
                self.wf(),
                ray.wf(),
                in_range(t_min as int),
                in_range(t_max as int),
                in_range(closest as int),
                match res {
                    None => closest == t_max && (forall|j: int|
                        0 <= j < k ==> sph_hit_t(
                            self.spheres@[j],
                            *ray,
                            t_min as int,
                            t_max as int,
                        ) is None),
                    Some(rec) => rec.wf() && closest == rec.t && rec.t < t_max && (exists|i: int|
                        0 <= i < k && sph_hit_t(
                            self.spheres@[i],
                            *ray,
                            t_min as int,
                            t_max as int,
                        ) == Some(rec.t as int) && rec == sph_record(
                            self.spheres@[i],
                            *ray,
                            rec.t as int,
                        )) && (forall|j: int|
                        0 <= j < k && sph_hit_t(
                            self.spheres@[j],
                            *ray,
                            t_min as int,
                            t_max as int,
                        ) is Some ==> rec.t as int <= sph_hit_t(
                            self.spheres@[j],
                            *ray,
                            t_min as int,
                            t_max as int,
                        )->Some_0),
                },
            decreases n - k,
        {
            let s = self.spheres[k];
            proof {
                lemma_hit_window(s, *ray, t_min as int, closest as int, t_max as int);
            }
            match s.hit(ray, t_min, closest) {
                Some(rec) => {
                    closest = rec.t;
                    res = Some(rec);
                },
                None => {},
            }
            k = k + 1;
        }
        proof {
            reveal(world_hit_some);
        }
        res
    }
}

} // verus!
