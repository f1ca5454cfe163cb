//! The scene: an ordered collection of spheres, resolving the nearest hit in
//! one pass by testing each member against an ever-tighter interval.

use vstd::prelude::*;
use crate::ray::Ray;
use crate::hitable::{HitRecord, Hittable};
use crate::sphere::{Sphere, ray_in_bounds, lemma_sphere_roots_ordered, lemma_sphere_hit_restrict};

verus! {

/// The running scan over the members from index `i` on: `best` is the hit
/// found so far and `closest` the current upper interval end (the parameter
/// of `best` once one is found).
pub open spec fn scene_scan_s(
    spheres: Seq<Sphere>,
    ray: Ray,
    t_min: int,
    i: int,
    closest: int,
    best: Option<HitRecord>,
) -> Option<HitRecord>
    decreases spheres.len() - i,
{
    if i < 0 || i >= spheres.len() {
        best
    } else {
        match spheres[i].sphere_hit_s(ray, t_min, closest) {
            Some(h) => scene_scan_s(spheres, ray, t_min, i + 1, h.t as int, Some(h)),
            None => scene_scan_s(spheres, ray, t_min, i + 1, closest, best),
        }
    }
}

/// The scene's answer: the scan started with the full interval and no hit.
pub open spec fn scene_hit_seq_s(spheres: Seq<Sphere>, ray: Ray, t_min: int, t_max: int) -> Option<HitRecord> {
    scene_scan_s(spheres, ray, t_min, 0, t_max, None)
}

#[derive(Debug)]
pub struct HittableList {
    pub list: Vec<Sphere>,
}

impl HittableList {
    /// Every member is well formed.
    pub open spec fn wf(self) -> bool {
        forall|i: int| 0 <= i < self.list@.len() ==> (#[trigger] self.list@[i]).wf()
    }

    pub fn new() -> (r: HittableList)
        ensures
            r.list@.len() == 0,
            r.wf(),
    {
        let spheres_list: Vec<Sphere> = Vec::new();
        HittableList { list: spheres_list }
    }

    pub fn add_sphere(&mut self, sphere: Sphere)
        requires
            sphere.wf(),
        ensures
            final(self).list@ == old(self).list@.push(sphere),
            old(self).wf() ==> final(self).wf(),
    {
        self.list.push(sphere);
    }

    pub fn size(&self) -> (r: usize)
        ensures
            r == self.list@.len(),
    {
        self.list.len()
    }
}

impl Hittable for HittableList {
    open spec fn hit_req(&self, ray: Ray, t_min: i128, t_max: i128) -> bool {
        self.wf() && ray_in_bounds(ray)
    }

    open spec fn hit_s(&self, ray: Ray, t_min: int, t_max: int) -> Option<HitRecord> {
        scene_hit_seq_s(self.list@, ray, t_min, t_max)
    }

    fn hit(&self, ray: &Ray, t_min: i128, t_max: i128) -> (r: Option<HitRecord>) {
        let mut result: Option<HitRecord> = None;
        let mut closest_so_far: i128 = t_max;
        let mut i: usize = 0;
        while i < self.list.len()
            invariant
                0 <= i <= self.list@.len(),
                self.wf(),
                ray_in_bounds(*ray),
                scene_scan_s(self.list@, *ray, t_min as int, i as int, closest_so_far as int, result)
                    == scene_hit_seq_s(self.list@, *ray, t_min as int, t_max as int),
                result matches Some(h) ==> h.t == closest_so_far,
            decreases self.list@.len() - i,
        {
            let sphere = self.list[i];
            match sphere.hit(ray, t_min, closest_so_far) {
                Some(h) => {
                    closest_so_far = h.t;
                    result = Some(h);
                },
                None => {},
            }
            i = i + 1;
        }
        result
    }
}

/// The scan never loses a hit, never reports a parameter above the current
/// interval end, reports a member's own hit, and reports none farther than
/// any member's hit.
proof fn lemma_scan_nearest(spheres: Seq<Sphere>, ray: Ray, t_min: int, i: int, closest: int, best: Option<HitRecord>)
    requires
        0 <= i <= spheres.len(),
        best matches Some(h) ==> h.t == closest,
        i128::MIN as int <= t_min,
        closest <= i128::MAX as int,
    ensures
        ({
            let r = scene_scan_s(spheres, ray, t_min, i, closest, best);
            &&& best is Some ==> r is Some
            &&& r matches Some(h) ==> h.t <= closest
            &&& r == best || (r is Some && exists|j: int|
                i <= j < spheres.len()
                    && #[trigger] spheres[j].sphere_hit_s(ray, t_min, closest) == r)
            &&& forall|j: int|
                i <= j < spheres.len()
                    && (#[trigger] spheres[j].sphere_hit_s(ray, t_min, closest)) is Some
                    ==> r is Some
                        && r.unwrap().t <= spheres[j].sphere_hit_s(ray, t_min, closest).unwrap().t
        }),
    decreases spheres.len() - i,
{
    if i == spheres.len() {
        return;
    }
    let r = scene_scan_s(spheres, ray, t_min, i, closest, best);
    match spheres[i].sphere_hit_s(ray, t_min, closest) {
        Some(h) => {
            lemma_scan_nearest(spheres, ray, t_min, i + 1, h.t as int, Some(h));
            let r2 = scene_scan_s(spheres, ray, t_min, i + 1, h.t as int, Some(h));
            assert(r == r2);
            // Lift the witness for the reported hit to the wider interval.
            if r2 != Some(h) {
                let j = choose|j: int|
                    i + 1 <= j < spheres.len()
                        && #[trigger] spheres[j].sphere_hit_s(ray, t_min, h.t as int) == r2;
                lemma_sphere_hit_restrict(spheres[j], ray, t_min, h.t as int, closest);
                assert(spheres[j].sphere_hit_s(ray, t_min, closest) == r);
            }
            // No member's hit over the wider interval is nearer.
            assert forall|j: int|
                i <= j < spheres.len()
                    && (#[trigger] spheres[j].sphere_hit_s(ray, t_min, closest)) is Some
                    implies r is Some
                        && r.unwrap().t <= spheres[j].sphere_hit_s(ray, t_min, closest).unwrap().t
            by {
                if j > i {
                    let hj = spheres[j].sphere_hit_s(ray, t_min, closest).unwrap();
                    lemma_sphere_hit_restrict(spheres[j], ray, t_min, h.t as int, closest);
                    if (hj.t as int) < h.t as int {
                        assert(spheres[j].sphere_hit_s(ray, t_min, h.t as int) == Some(hj));
                    }
                }
            }
        },
        None => {
            lemma_scan_nearest(spheres, ray, t_min, i + 1, closest, best);
        },
    }
}

/// The scene's hit is the nearest of its members': it is some member's own
/// hit over the full interval, and no member's hit has a smaller parameter.
pub proof fn lemma_scene_hit_nearest(spheres: Seq<Sphere>, ray: Ray, t_min: i128, t_max: i128)
    ensures
        scene_hit_seq_s(spheres, ray, t_min as int, t_max as int) matches Some(h)
            ==> exists|j: int| 0 <= j < spheres.len()
                && #[trigger] spheres[j].sphere_hit_s(ray, t_min as int, t_max as int) == Some(h),
        forall|j: int|
            0 <= j < spheres.len()
                && (#[trigger] spheres[j].sphere_hit_s(ray, t_min as int, t_max as int)) is Some
                ==> scene_hit_seq_s(spheres, ray, t_min as int, t_max as int) is Some
                    && scene_hit_seq_s(spheres, ray, t_min as int, t_max as int).unwrap().t
                        <= spheres[j].sphere_hit_s(ray, t_min as int, t_max as int).unwrap().t,
{
    lemma_scan_nearest(spheres, ray, t_min as int, 0, t_max as int, None);
}

/// Two overlapping spheres report the same nearest parameter whichever order
/// they were inserted in.
#[verifier::rlimit(100)]
#[verifier::spinoff_prover]
pub proof fn lemma_scene_hit_order_irrelevant(a: Sphere, b: Sphere, ray: Ray, t_min: i128, t_max: i128)
    ensures
        ({
            let r_ab = scene_hit_seq_s(seq![a, b], ray, t_min as int, t_max as int);
            let r_ba = scene_hit_seq_s(seq![b, a], ray, t_min as int, t_max as int);
            &&& (r_ab is Some <==> r_ba is Some)
            &&& (r_ab matches Some(h1) ==> (r_ba matches Some(h2) ==> h1.t == h2.t))
        }),
{
    let tn = t_min as int;
    let tx = t_max as int;
    lemma_scan_pair(a, b, ray, tn, tx);
    lemma_scan_pair(b, a, ray, tn, tx);
    let ha = a.sphere_hit_s(ray, tn, tx);
    let hb = b.sphere_hit_s(ray, tn, tx);
    match (ha, hb) {
        (Option::Some(x), Option::Some(y)) => {
            if (y.t as int) < x.t as int {
                assert(scene_hit_seq_s(seq![a, b], ray, tn, tx) == Some(y));
                assert(scene_hit_seq_s(seq![b, a], ray, tn, tx) == Some(y));
            } else if (x.t as int) < y.t as int {
                assert(scene_hit_seq_s(seq![a, b], ray, tn, tx) == Some(x));
                assert(scene_hit_seq_s(seq![b, a], ray, tn, tx) == Some(x));
            } else {
                assert(scene_hit_seq_s(seq![a, b], ray, tn, tx) == Some(x));
                assert(scene_hit_seq_s(seq![b, a], ray, tn, tx) == Some(y));
            }
        },
        _ => {},
    }
}

/// Unfolds the two-member scan: the first member's hit, tightened and
/// possibly replaced by the second member's.
proof fn lemma_scan_pair(a: Sphere, b: Sphere, ray: Ray, tn: int, tx: int)
    requires
        i128::MIN as int <= tn,
        tx <= i128::MAX as int,
    ensures
        ({
            let r = scene_hit_seq_s(seq![a, b], ray, tn, tx);
            let ha = a.sphere_hit_s(ray, tn, tx);
            let hb = b.sphere_hit_s(ray, tn, tx);
            match (ha, hb) {
                (Option::None, Option::None) => r is None,
                (Option::Some(x), Option::None) => r == Some(x),
                (Option::None, Option::Some(y)) => r == Some(y),
                (Option::Some(x), Option::Some(y)) => r == (if (y.t as int) < x.t as int {
                    Some(y)
                } else {
                    Some(x)
                }),
            }
        }),
{
    let s = seq![a, b];
    assert(s[0] == a && s[1] == b && s.len() == 2);
    let ha = a.sphere_hit_s(ray, tn, tx);
    let hb = b.sphere_hit_s(ray, tn, tx);
    match ha {
        Some(x) => {
            assert(scene_hit_seq_s(s, ray, tn, tx)
                == scene_scan_s(s, ray, tn, 1, x.t as int, Some(x)));
            lemma_sphere_hit_restrict(b, ray, tn, x.t as int, tx);
            match b.sphere_hit_s(ray, tn, x.t as int) {
                Some(y) => {
                    assert(scene_scan_s(s, ray, tn, 1, x.t as int, Some(x))
                        == scene_scan_s(s, ray, tn, 2, y.t as int, Some(y)));
                },
                None => {
                    assert(scene_scan_s(s, ray, tn, 1, x.t as int, Some(x))
                        == scene_scan_s(s, ray, tn, 2, x.t as int, Some(x)));
                },
            }
        },
        None => {
            assert(scene_hit_seq_s(s, ray, tn, tx) == scene_scan_s(s, ray, tn, 1, tx, None));
            match hb {
                Some(y) => {
                    assert(scene_scan_s(s, ray, tn, 1, tx, None)
                        == scene_scan_s(s, ray, tn, 2, y.t as int, Some(y)));
                },
                None => {
                    assert(scene_scan_s(s, ray, tn, 1, tx, None)
                        == scene_scan_s(s, ray, tn, 2, tx, None));
                },
            }
        },
    }
}

} // verus!
