//! The intersection protocol and the scene aggregator.
//!
//! `hit(ray, t_min, t_max)` answers with the nearest intersection whose
//! parameter lies strictly inside the open window, or with nothing.  The
//! scene aggregator scans its primitives, shrinking the window top to
//! the best parameter found so far.

use crate::material::Material;
use crate::ray::Ray;
use crate::sphere::{
    lemma_sphere_hit_in_window, lemma_sphere_hit_window, sphere_hit_spec, Sphere,
};
use crate::vec3::{dot_spec, neg_spec, Point3, Vec3};
use vstd::prelude::*;

verus! {

/// The transient result of an intersection test.
#[derive(Clone, Copy, Debug, PartialEq, Eq, Structural)]
pub struct Hit {
    pub p: Point3,
    pub normal: Vec3,
    pub t: i64,
    pub front_face: bool,
    pub material: Material,
}

impl Hit {
    /// Point and normal are representable and the material well formed.
    pub open spec fn wf(self) -> bool {
        self.p.wf() && self.normal.wf() && self.material.wf()
    }
}

/// Whether the outward normal opposes the ray, and the normal oriented
/// so that it always does.
pub fn face_normal(ray: &Ray, outward_normal: &Vec3) -> (r: (bool, Vec3))
    requires
        ray.wf(),
        outward_normal.wf(),
    ensures
        r.0 == (dot_spec(ray.direction, *outward_normal) < 0),
        r.1 == if r.0 {
            *outward_normal
        } else {
            neg_spec(*outward_normal)
        },
        r.1.wf(),
{
    let front_face = ray.direction.dot(*outward_normal) < 0;
    let normal = if front_face {
        *outward_normal
    } else {
        outward_normal.neg()
    };
    (front_face, normal)
}

/// The capability of being intersected by a ray, with a declared model
/// of the answer.
pub trait Hittable {
    /// The answer the implementation gives, as a mathematical function.
    spec fn hit_model(&self, ray: Ray, t_min: i64, t_max: i64) -> Option<Hit>;

    /// What the implementation needs of its own data.
    spec fn well_formed(&self) -> bool;

    /// The nearest intersection with parameter strictly inside
    /// `(t_min, t_max)`, or nothing.
    fn hit(&self, ray: &Ray, t_min: i64, t_max: i64) -> (r: Option<Hit>)
        requires
            self.well_formed(),
            ray.wf(),
        ensures
            r == self.hit_model(*ray, t_min, t_max),
    ;
}

/// What the aggregator's scan computes: each primitive in turn is asked
/// with the window shrunk to the best parameter so far, and the last
/// positive answer wins.
pub open spec fn scene_hit_spec(objs: Seq<Sphere>, ray: Ray, t_min: int, t_max: int) -> Option<
    Hit,
>
    decreases objs.len(),
{
    if objs.len() == 0 {
        None
    } else {
        let prev = scene_hit_spec(objs.drop_last(), ray, t_min, t_max);
        let cur = match prev {
            Some(h) => h.t as int,
            None => t_max,
        };
        match sphere_hit_spec(objs.last(), ray, t_min, cur) {
            Some(h) => Some(h),
            None => prev,
        }
    }
}

/// An ordered collection of primitives, asked as one.
pub struct HittableList {
    pub objects: Vec<Sphere>,
}

impl HittableList {
    /// An empty scene.
    pub fn new() -> (r: HittableList)
        ensures
            r.objects@ =~= Seq::<Sphere>::empty(),
    {
        HittableList { objects: Vec::new() }
    }

    /// A scene holding one primitive.
    pub fn with_object(object: Sphere) -> (r: HittableList)
        ensures
            r.objects@ =~= seq![object],
    {
        let mut objects = Vec::new();
        objects.push(object);
        HittableList { objects }
    }

    /// Remove every primitive.
    pub fn clear(&mut self)
        ensures
            final(self).objects@ =~= Seq::<Sphere>::empty(),
    {
        self.objects.clear();
    }

    /// Append a primitive to the scan order.
    pub fn add(&mut self, object: Sphere)
        ensures
            final(self).objects@ =~= old(self).objects@.push(object),
    {
        self.objects.push(object);
    }
}

impl Hittable for HittableList {
    open spec fn hit_model(&self, ray: Ray, t_min: i64, t_max: i64) -> Option<Hit> {
        scene_hit_spec(self.objects@, ray, t_min as int, t_max as int)
    }

    open spec fn well_formed(&self) -> bool {
        forall|i: int| 0 <= i < self.objects@.len() ==> (#[trigger] self.objects@[i]).wf()
    }

    fn hit(&self, ray: &Ray, t_min: i64, t_max: i64) -> (r: Option<Hit>) {
        let mut closest_hit_so_far: Option<Hit> = None;
        let mut closest_t_max_so_far: i64 = t_max;
        let n = self.objects.len();
        let mut idx: usize = 0;
        while idx < n
            invariant
                n == self.objects@.len(),
                0 <= idx <= n,
                self.well_formed(),
                ray.wf(),
                closest_hit_so_far == scene_hit_spec(
                    self.objects@.take(idx as int),
                    *ray,
                    t_min as int,
                    t_max as int,
                ),
                closest_t_max_so_far as int == match closest_hit_so_far {
                    Some(h) => h.t as int,
                    None => t_max as int,
                },
            decreases n - idx,
        {
            let object = &self.objects[idx];
            let res = object.hit(ray, t_min, closest_t_max_so_far);
            proof {
                assert(self.objects@.take(idx as int + 1).drop_last() =~= self.objects@.take(
                    idx as int,
                ));
                assert(self.objects@.take(idx as int + 1).last() == self.objects@[idx as int]);
            }
            match res {
                Some(h) => {
                    closest_t_max_so_far = h.t;
                    closest_hit_so_far = Some(h);
                },
                None => {},
            }
            idx = idx + 1;
        }
        proof {
            assert(self.objects@.take(n as int) =~= self.objects@);
        }
        closest_hit_so_far
    }
}

/// A scene of well-formed spheres reports well-formed hit records.
pub proof fn lemma_scene_hit_wf(objs: Seq<Sphere>, ray: Ray, t_min: int, t_max: int)
    requires
        forall|i: int| 0 <= i < objs.len() ==> (#[trigger] objs[i]).wf(),
    ensures
        scene_hit_spec(objs, ray, t_min, t_max) matches Some(h) ==> h.wf(),
    decreases objs.len(),
{
    if objs.len() == 0 {
    } else {
        assert(forall|i: int|
            0 <= i < objs.drop_last().len() ==> (#[trigger] objs.drop_last()[i]).wf());
        lemma_scene_hit_wf(objs.drop_last(), ray, t_min, t_max);
        let prev = scene_hit_spec(objs.drop_last(), ray, t_min, t_max);
        let cur = match prev {
            Some(h) => h.t as int,
            None => t_max,
        };
        assert(objs.last() == objs[objs.len() - 1]);
        crate::sphere::lemma_sphere_hit_wf(objs.last(), ray, t_min, cur);
    }
}

/// A scene hit carries the material of one of the scene's primitives.
pub proof fn lemma_scene_hit_material(objs: Seq<Sphere>, ray: Ray, t_min: int, t_max: int)
    ensures
        scene_hit_spec(objs, ray, t_min, t_max) matches Some(h) ==> exists|i: int|
            0 <= i < objs.len() && h.material == (#[trigger] objs[i]).material,
    decreases objs.len(),
{
    if objs.len() == 0 {
    } else {
        lemma_scene_hit_material(objs.drop_last(), ray, t_min, t_max);
        let prev = scene_hit_spec(objs.drop_last(), ray, t_min, t_max);
        let cur = match prev {
            Some(h) => h.t as int,
            None => t_max,
        };
        match sphere_hit_spec(objs.last(), ray, t_min, cur) {
            Some(h) => {
                assert(h.material == objs[objs.len() - 1].material);
            },
            None => {
                match prev {
                    Some(h) => {
                        let i = choose|i: int|
                            0 <= i < objs.drop_last().len() && h.material == (
                            #[trigger] objs.drop_last()[i]).material;
                        assert(objs.drop_last()[i] == objs[i]);
                        assert(h.material == objs[i].material);
                    },
                    None => {},
                }
            },
        }
    }
}

/// Every answer of the aggregator lies strictly inside the asked window.
pub proof fn lemma_scene_hit_in_window(objs: Seq<Sphere>, ray: Ray, t_min: int, t_max: int)
    ensures
        scene_hit_spec(objs, ray, t_min, t_max) matches Some(h) ==> t_min < h.t < t_max,
    decreases objs.len(),
{
    if objs.len() == 0 {
    } else {
        lemma_scene_hit_in_window(objs.drop_last(), ray, t_min, t_max);
        let prev = scene_hit_spec(objs.drop_last(), ray, t_min, t_max);
        let cur = match prev {
            Some(h) => h.t as int,
            None => t_max,
        };
        lemma_sphere_hit_in_window(objs.last(), ray, t_min, cur);
    }
}

/// The aggregator is a nearest-hit query: whenever some primitive of the
/// scene reports a hit over the full window, the scene reports a hit,
/// and at a parameter no larger than that primitive's.
pub proof fn lemma_scene_hit_closest(objs: Seq<Sphere>, ray: Ray, t_min: int, t_max: int, k: int)
    requires
        0 <= k < objs.len(),
        sphere_hit_spec(objs[k], ray, t_min, t_max) is Some,
    ensures
        scene_hit_spec(objs, ray, t_min, t_max) is Some,
        scene_hit_spec(objs, ray, t_min, t_max)->0.t <= sphere_hit_spec(
            objs[k],
            ray,
            t_min,
            t_max,
        )->0.t,
    decreases objs.len(),
{
    let n = objs.len() as int;
    let prev = scene_hit_spec(objs.drop_last(), ray, t_min, t_max);
    let cur = match prev {
        Some(h) => h.t as int,
        None => t_max,
    };
    lemma_scene_hit_in_window(objs.drop_last(), ray, t_min, t_max);
    lemma_scene_hit_in_window(objs, ray, t_min, t_max);
    lemma_sphere_hit_in_window(objs.last(), ray, t_min, cur);
    lemma_sphere_hit_window(objs.last(), ray, t_min, t_max, cur);
    if k < n - 1 {
        assert(objs.drop_last()[k] == objs[k]);
        lemma_scene_hit_closest(objs.drop_last(), ray, t_min, t_max, k);
    } else {
        assert(objs.last() == objs[k]);
        lemma_sphere_hit_in_window(objs.last(), ray, t_min, t_max);
    }
}

/// Whatever hit the aggregator reports is some primitive's answer over
/// the full window.
pub proof fn lemma_scene_hit_is_full(objs: Seq<Sphere>, ray: Ray, t_min: int, t_max: int)
    ensures
        scene_hit_spec(objs, ray, t_min, t_max) matches Some(h) ==> exists|k: int|
            0 <= k < objs.len() && sphere_hit_spec(#[trigger] objs[k], ray, t_min, t_max) == Some(
                h,
            ),
    decreases objs.len(),
{
    if objs.len() == 0 {
    } else {
        lemma_scene_hit_is_full(objs.drop_last(), ray, t_min, t_max);
        lemma_scene_hit_in_window(objs.drop_last(), ray, t_min, t_max);
        let prev = scene_hit_spec(objs.drop_last(), ray, t_min, t_max);
        let cur = match prev {
            Some(h) => h.t as int,
            None => t_max,
        };
        lemma_sphere_hit_window(objs.last(), ray, t_min, t_max, cur);
        match sphere_hit_spec(objs.last(), ray, t_min, cur) {
            Some(h) => {
                assert(objs.last() == objs[objs.len() - 1]);
                assert(sphere_hit_spec(objs[objs.len() - 1], ray, t_min, t_max) == Some(h));
            },
            None => {
                match prev {
                    Some(h) => {
                        let k = choose|k: int|
                            0 <= k < objs.drop_last().len() && sphere_hit_spec(
                                #[trigger] objs.drop_last()[k],
                                ray,
                                t_min,
                                t_max,
                            ) == Some(h);
                        assert(objs.drop_last()[k] == objs[k]);
                        assert(sphere_hit_spec(objs[k], ray, t_min, t_max) == Some(h));
                    },
                    None => {},
                }
            },
        }
    }
}

/// No two primitives of the scene report distinct full-window hits at
/// exactly the same parameter.  (At such a tie the aggregator keeps
/// whichever primitive is listed first, so order could matter.)
pub open spec fn no_hit_ties(objs: Seq<Sphere>, ray: Ray, t_min: int, t_max: int) -> bool {
    forall|k1: int, k2: int|
        0 <= k1 < objs.len() && 0 <= k2 < objs.len() ==> match (
            sphere_hit_spec(#[trigger] objs[k1], ray, t_min, t_max),
            sphere_hit_spec(#[trigger] objs[k2], ray, t_min, t_max),
        ) {
            (Some(h1), Some(h2)) => h1.t != h2.t || h1 == h2,
            _ => true,
        }
}

/// An element of a sequence occurs in every sequence with the same
/// multiset of elements.
proof fn lemma_contains_transfer(objs1: Seq<Sphere>, objs2: Seq<Sphere>, x: Sphere)
    requires
        objs1.to_multiset() == objs2.to_multiset(),
        objs1.contains(x),
    ensures
        objs2.contains(x),
{
    objs1.to_multiset_ensures();
    objs2.to_multiset_ensures();
    assert(objs1.to_multiset().count(x) > 0);
    assert(objs2.to_multiset().count(x) > 0);
}

/// Order independence of the aggregator: two scenes holding the same
/// primitives as a multiset — in any order — give the same answer,
/// provided no two distinct answers tie at one parameter.  Primitive
/// order affects traversal cost only, never the result.
#[verifier::rlimit(100)]
pub proof fn lemma_scene_permutation(
    objs1: Seq<Sphere>,
    objs2: Seq<Sphere>,
    ray: Ray,
    t_min: int,
    t_max: int,
)
    requires
        objs1.to_multiset() == objs2.to_multiset(),
        no_hit_ties(objs1, ray, t_min, t_max),
    ensures
        scene_hit_spec(objs1, ray, t_min, t_max) == scene_hit_spec(objs2, ray, t_min, t_max),
{
    lemma_scene_hit_is_full(objs1, ray, t_min, t_max);
    lemma_scene_hit_is_full(objs2, ray, t_min, t_max);
    let s1 = scene_hit_spec(objs1, ray, t_min, t_max);
    let s2 = scene_hit_spec(objs2, ray, t_min, t_max);
    match s1 {
        Some(h1) => {
            let k1 = choose|k: int|
                0 <= k < objs1.len() && sphere_hit_spec(#[trigger] objs1[k], ray, t_min, t_max)
                    == Some(h1);
            assert(objs1.contains(objs1[k1]));
            lemma_contains_transfer(objs1, objs2, objs1[k1]);
            let j1 = choose|j: int| 0 <= j < objs2.len() && objs2[j] == objs1[k1];
            lemma_scene_hit_closest(objs2, ray, t_min, t_max, j1);
            let h2 = s2->0;
            assert(h2.t <= h1.t);
            let k2 = choose|k: int|
                0 <= k < objs2.len() && sphere_hit_spec(#[trigger] objs2[k], ray, t_min, t_max)
                    == Some(h2);
            assert(objs2.contains(objs2[k2]));
            lemma_contains_transfer(objs2, objs1, objs2[k2]);
            let j2 = choose|j: int| 0 <= j < objs1.len() && objs1[j] == objs2[k2];
            lemma_scene_hit_closest(objs1, ray, t_min, t_max, j2);
            assert(h1.t <= h2.t);
            assert(sphere_hit_spec(objs1[k1], ray, t_min, t_max) == Some(h1));
            assert(sphere_hit_spec(objs1[j2], ray, t_min, t_max) == Some(h2));
            assert(h1 == h2);
        },
        None => {
            match s2 {
                Some(h2) => {
                    let k2 = choose|k: int|
                        0 <= k < objs2.len() && sphere_hit_spec(
                            #[trigger] objs2[k],
                            ray,
                            t_min,
                            t_max,
                        ) == Some(h2);
                    assert(objs2.contains(objs2[k2]));
                    lemma_contains_transfer(objs2, objs1, objs2[k2]);
                    let j2 = choose|j: int| 0 <= j < objs1.len() && objs1[j] == objs2[k2];
                    lemma_scene_hit_closest(objs1, ray, t_min, t_max, j2);
                    assert(false);
                },
                None => {},
            }
        },
    }
}

/// Over a single primitive the aggregator answers as the primitive does.
pub proof fn lemma_scene_single(s: Sphere, ray: Ray, t_min: int, t_max: int)
    ensures
        scene_hit_spec(seq![s], ray, t_min, t_max) == sphere_hit_spec(s, ray, t_min, t_max),
{
    assert(seq![s].drop_last() =~= Seq::<Sphere>::empty());
    assert(scene_hit_spec(Seq::<Sphere>::empty(), ray, t_min, t_max) is None);
    assert(seq![s].last() == s);
}

/// Over two primitives whose full-window answers do not tie, the
/// aggregator's answer does not depend on their order in the scene.
pub proof fn lemma_scene_pair_order(s1: Sphere, s2: Sphere, ray: Ray, t_min: int, t_max: int)
    requires
        !(sphere_hit_spec(s1, ray, t_min, t_max) matches Some(h1) && sphere_hit_spec(
            s2,
            ray,
            t_min,
            t_max,
        ) matches Some(h2) && h1.t == h2.t),
    ensures
        scene_hit_spec(seq![s1, s2], ray, t_min, t_max) == scene_hit_spec(
            seq![s2, s1],
            ray,
            t_min,
            t_max,
        ),
{
    let h1 = sphere_hit_spec(s1, ray, t_min, t_max);
    let h2 = sphere_hit_spec(s2, ray, t_min, t_max);
    lemma_sphere_hit_in_window(s1, ray, t_min, t_max);
    lemma_sphere_hit_in_window(s2, ray, t_min, t_max);
    assert(seq![s1, s2].drop_last() =~= seq![s1]);
    assert(seq![s2, s1].drop_last() =~= seq![s2]);
    assert(seq![s1, s2].last() == s2);
    assert(seq![s2, s1].last() == s1);
    lemma_scene_single(s1, ray, t_min, t_max);
    lemma_scene_single(s2, ray, t_min, t_max);
    match h1 {
        Some(r1) => {
            lemma_sphere_hit_window(s2, ray, t_min, t_max, r1.t as int);
        },
        None => {},
    }
    match h2 {
        Some(r2) => {
            lemma_sphere_hit_window(s1, ray, t_min, t_max, r2.t as int);
        },
        None => {},
    }
}

} // verus!
