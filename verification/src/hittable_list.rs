//! The scene aggregate: an ordered list of surfaces, answering with the
//! globally nearest intersection.

use crate::fixed::Fixed;
use crate::hittable::{
    hittable_hit_spec, hittable_wf, lemma_hittable_hit_tight, lemma_hittable_hit_widen, rec_wf,
    HitRecord, Hittable,
};
use crate::ray::{ray_within, Ray, T_CAP};
use vstd::prelude::*;

verus! {

/// Every member of the scene is well-formed.
pub open spec fn list_wf(objs: Seq<Hittable>) -> bool {
    forall|i: int| 0 <= i < objs.len() ==> hittable_wf(#[trigger] objs[i])
}

/// What member `i` reports for the full trace window.
pub open spec fn member_hit(objs: Seq<Hittable>, r: Ray, tmin: int, tmax: int, i: int) -> Option<
    HitRecord,
> {
    hittable_hit_spec(objs[i], r, tmin, tmax)
}

/// The fold of the nearest-hit scan over the remaining members, carrying
/// the best record so far and its parameter as the shrunken upper bound.
pub open spec fn list_hit_from(
    objs: Seq<Hittable>,
    r: Ray,
    tmin: int,
    closest: int,
    best: Option<HitRecord>,
) -> Option<HitRecord>
    decreases objs.len(),
{
    if objs.len() == 0 {
        best
    } else {
        match hittable_hit_spec(objs[0], r, tmin, closest) {
            Some(h) => list_hit_from(
                objs.subrange(1, objs.len() as int),
                r,
                tmin,
                h.t.bits as int,
                Some(h),
            ),
            None => list_hit_from(objs.subrange(1, objs.len() as int), r, tmin, closest, best),
        }
    }
}

/// What the scene reports: the scan started with the full window and no
/// record.
pub open spec fn list_hit_spec(objs: Seq<Hittable>, r: Ray, tmin: int, tmax: int) -> Option<
    HitRecord,
> {
    list_hit_from(objs, r, tmin, tmax, None)
}

/// An unordered collection of surfaces.
#[derive(Debug)]
pub struct HittableList {
    pub objects: Vec<Hittable>,
}

impl HittableList {
    /// An empty scene.
    pub fn new() -> (r: HittableList)
        ensures
            r.objects@.len() == 0,
    {
        HittableList { objects: Vec::new() }
    }

    /// Removes every member.
    pub fn clear(&mut self)
        ensures
            final(self).objects@.len() == 0,
    {
        self.objects.clear();
    }

    /// Appends a surface; insertion order is kept.
    pub fn add(&mut self, object: Hittable)
        ensures
            final(self).objects@ == old(self).objects@.push(object),
    {
        self.objects.push(object);
    }

    /// True exactly when every member of the scene is well-formed.
    pub fn is_well_formed(&self) -> (r: bool)
        ensures
            r == list_wf(self.objects@),
    {
        let n: usize = self.objects.len();
        let mut i: usize = 0;
        while i < n
            invariant
                n == self.objects@.len(),
                i <= n,
                forall|j: int| 0 <= j < i ==> hittable_wf(#[trigger] self.objects@[j]),
            decreases n - i,
        {
            let ok: bool = self.objects[i].is_well_formed();
            if !ok {
                return false;
            }
            i = i + 1;
        }
        true
    }

    /// The nearest intersection among all members in the half-open window
    /// `[t_min, t_max)`: of every member that the full window hits, the
    /// returned record is one with the smallest parameter, and with no such
    /// member nothing is returned.
    pub fn hit(&self, ray: &Ray, t_min: Fixed, t_max: Fixed) -> (r: Option<HitRecord>)
        requires
            list_wf(self.objects@),
            ray_within(*ray),
            0 < t_min.bits,
            t_max.bits <= T_CAP,
        ensures
            r == list_hit_spec(self.objects@, *ray, t_min.bits as int, t_max.bits as int),
            (match r {
                Some(h) => rec_wf(h) && t_min.bits <= h.t.bits < t_max.bits && (exists|i: int|
                    0 <= i < self.objects@.len() && member_hit(
                        self.objects@,
                        *ray,
                        t_min.bits as int,
                        t_max.bits as int,
                        i,
                    ) == Some(h)) && (forall|i: int, h2: HitRecord|
                    0 <= i < self.objects@.len() && member_hit(
                        self.objects@,
                        *ray,
                        t_min.bits as int,
                        t_max.bits as int,
                        i,
                    ) == Some(h2) ==> h.t.bits <= h2.t.bits),
                None => forall|i: int|
                    0 <= i < self.objects@.len() ==> member_hit(
                        self.objects@,
                        *ray,
                        t_min.bits as int,
                        t_max.bits as int,
                        i,
                    ) is None,
            }),
    {
        let ghost objs = self.objects@;
        let ghost tmin = t_min.bits as int;
        let ghost tmax = t_max.bits as int;
        let mut best: Option<HitRecord> = None;
        let mut closest: Fixed = t_max;
        let n: usize = self.objects.len();
        let mut i: usize = 0;
        proof {
            assert(objs.subrange(0, n as int) =~= objs);
        }
        while i < n
            invariant
                n == objs.len(),
                objs == self.objects@,
                tmin == t_min.bits as int,
                tmax == t_max.bits as int,
                i <= n,
                list_wf(objs),
                ray_within(*ray),
                0 < t_min.bits,
                t_max.bits <= T_CAP,
                list_hit_spec(objs, *ray, tmin, tmax) == list_hit_from(
                    objs.subrange(i as int, n as int),
                    *ray,
                    tmin,
                    closest.bits as int,
                    best,
                ),
                (match best {
                    Some(b) => closest == b.t && rec_wf(b) && tmin <= b.t.bits < tmax && (exists|
                        j: int,
                    |
                        0 <= j < i && member_hit(objs, *ray, tmin, tmax, j) == Some(b)) && (forall|
                        j: int,
                        h2: HitRecord,
                    |
                        0 <= j < i && member_hit(objs, *ray, tmin, tmax, j) == Some(h2)
                            ==> b.t.bits <= h2.t.bits),
                    None => closest == t_max && forall|j: int|
                        0 <= j < i ==> member_hit(objs, *ray, tmin, tmax, j) is None,
                }),
            decreases n - i,
        {
            let ghost rest = objs.subrange(i as int, n as int);
            proof {
                assert(rest[0] == objs[i as int]);
                assert(rest.subrange(1, rest.len() as int) =~= objs.subrange(
                    i as int + 1,
                    n as int,
                ));
            }
            let obj: &Hittable = &self.objects[i];
            let found: Option<HitRecord> = obj.hit(ray, t_min, closest);
            match found {
                Some(h) => {
                    proof {
                        lemma_hittable_hit_widen(
                            objs[i as int],
                            *ray,
                            tmin,
                            closest.bits as int,
                            tmax,
                            h,
                        );
                        assert(member_hit(objs, *ray, tmin, tmax, i as int) == Some(h));
                        assert forall|j: int, h2: HitRecord|
                            0 <= j < i + 1 && member_hit(objs, *ray, tmin, tmax, j) == Some(
                                h2,
                            ) implies h.t.bits <= h2.t.bits by {
                            if j < i {
                                match best {
                                    Some(b) => {
                                        assert(b.t.bits <= h2.t.bits);
                                        assert(h.t.bits < closest.bits);
                                    },
                                    None => {
                                        assert(member_hit(objs, *ray, tmin, tmax, j) is None);
                                    },
                                }
                            } else {
                                assert(h2 == h);
                            }
                        }
                    }
                    closest = h.t;
                    best = Some(h);
                },
                None => {
                    proof {
                        if member_hit(objs, *ray, tmin, tmax, i as int) is Some {
                            let h2 = member_hit(objs, *ray, tmin, tmax, i as int)->Some_0;
                            lemma_hittable_hit_tight(
                                objs[i as int],
                                *ray,
                                tmin,
                                closest.bits as int,
                                tmax,
                                h2,
                            );
                        }
                    }
                },
            }
            i = i + 1;
        }
        proof {
            assert(objs.subrange(n as int, n as int).len() == 0);
        }
        best
    }
}

} // verus!
