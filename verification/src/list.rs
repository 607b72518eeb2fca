use vstd::prelude::*;
use crate::fixed::abs_i;
use crate::hit::{
    hittable_hit, hittable_wf, rec_wf, HitRecS, HitRecord, Hittable, HittableS, GEO_BOUND,
};
use crate::math::sv_dot_raw;
use crate::ray::{ray_bounded, Ray, RayS};

verus! {

/// A scene: an ordered collection of primitives queried as one. Order never
/// changes which distance wins (the closest hit does), only which primitive
/// wins an exact tie: the first inserted.
pub struct HittableList(pub Vec<Hittable>);

impl View for HittableList {
    type V = Seq<HittableS>;

    open spec fn view(&self) -> Seq<HittableS> {
        self.0@.map_values(|o: Hittable| o@)
    }
}

pub open spec fn list_wf(objs: Seq<HittableS>) -> bool {
    forall|i: int| 0 <= i < objs.len() ==> hittable_wf(#[trigger] objs[i])
}

/// The closest hit over a sequence of primitives, queried left to right,
/// narrowing the upper bound to the best distance so far; a later primitive
/// replaces the result only when strictly closer.
pub open spec fn list_hit(objs: Seq<HittableS>, ray: RayS, t_min: int, t_max: int) -> Option<
    HitRecS,
>
    decreases objs.len(),
{
    if objs.len() == 0 {
        None
    } else {
        let prefix = list_hit(objs.drop_last(), ray, t_min, t_max);
        let bound = match prefix {
            Some(h) => h.t,
            None => t_max,
        };
        match hittable_hit(objs.last(), ray, t_min, bound) {
            Some(h) => if prefix is Some && h.t == bound {
                prefix
            } else {
                Some(h)
            },
            None => prefix,
        }
    }
}

/// Closest-hit selection: the scene's hit is absent exactly when every
/// primitive misses; otherwise it is the hit of some primitive, no primitive
/// hits strictly closer, and every earlier primitive that hits at all hits
/// strictly farther — on an exact tie of distances, the first inserted
/// primitive wins.
#[verifier::rlimit(100)]
#[verifier::spinoff_prover]
pub proof fn lemma_list_hit_closest(objs: Seq<HittableS>, ray: RayS, t_min: int, t_max: int)
    ensures
        (list_hit(objs, ray, t_min, t_max) is None) <==> (forall|j: int|
            0 <= j < objs.len() ==> (#[trigger] hittable_hit(objs[j], ray, t_min, t_max))
                is None),
        list_hit(objs, ray, t_min, t_max) matches Some(h) ==> {
            &&& forall|j: int|
                0 <= j < objs.len() ==> ((#[trigger] hittable_hit(objs[j], ray, t_min, t_max))
                    matches Some(h2) ==> h.t <= h2.t)
            &&& exists|i: int|
                0 <= i < objs.len() && #[trigger] hittable_hit(objs[i], ray, t_min, t_max)
                    == Some(h) && (forall|j: int|
                    0 <= j < i ==> ((#[trigger] hittable_hit(objs[j], ray, t_min, t_max)) matches
                        Some(h2) ==> h2.t > h.t))
        },
    decreases objs.len(),
{
    if objs.len() == 0 {
    } else {
        let prefix_objs = objs.drop_last();
        let n = objs.len() as int;
        lemma_list_hit_closest(prefix_objs, ray, t_min, t_max);
        assert(forall|j: int| 0 <= j < n - 1 ==> prefix_objs[j] == objs[j]);
        assert(objs.last() == objs[n - 1]);
        let prefix = list_hit(prefix_objs, ray, t_min, t_max);
        let bound = match prefix {
            Some(hp) => hp.t,
            None => t_max,
        };
        crate::hit::lemma_hittable_hit_range(objs[n - 1], ray, t_min, bound);
        crate::hit::lemma_hittable_hit_range(objs[n - 1], ray, t_min, t_max);
        crate::hit::lemma_hittable_hit_narrow(objs[n - 1], ray, t_min, bound, t_max);
        let narrowed = hittable_hit(objs[n - 1], ray, t_min, bound);
        let result = list_hit(objs, ray, t_min, t_max);
        match (narrowed, prefix) {
            (Some(h), Some(hp)) => {
                let wi = choose|i: int|
                    0 <= i < prefix_objs.len() && #[trigger] hittable_hit(
                        prefix_objs[i],
                        ray,
                        t_min,
                        t_max,
                    ) == Some(hp) && (forall|j: int|
                        0 <= j < i ==> ((#[trigger] hittable_hit(prefix_objs[j], ray, t_min, t_max))
                            matches Some(h2) ==> h2.t > hp.t));
                assert(hittable_hit(objs[wi], ray, t_min, t_max) == Some(hp));
                assert(hittable_hit(objs[n - 1], ray, t_min, t_max) == Some(h));
                if h.t == bound {
                    // an exact tie: the earlier primitive keeps the hit
                    assert(result == Some(hp));
                } else {
                    assert(result == Some(h));
                    assert(h.t < hp.t);
                    assert(forall|j: int|
                        0 <= j < n - 1 ==> ((#[trigger] hittable_hit(objs[j], ray, t_min, t_max))
                            matches Some(h2) ==> h2.t > h.t));
                    assert(0 <= n - 1 < objs.len() && hittable_hit(objs[n - 1], ray, t_min, t_max)
                        == Some(h));
                }
            },
            (Some(h), None) => {
                assert(result == Some(h));
                assert(hittable_hit(objs[n - 1], ray, t_min, t_max) == Some(h));
                assert(0 <= n - 1 < objs.len() && hittable_hit(objs[n - 1], ray, t_min, t_max)
                    == Some(h));
            },
            (None, Some(hp)) => {
                assert(result == Some(hp));
                let wi = choose|i: int|
                    0 <= i < prefix_objs.len() && #[trigger] hittable_hit(
                        prefix_objs[i],
                        ray,
                        t_min,
                        t_max,
                    ) == Some(hp) && (forall|j: int|
                        0 <= j < i ==> ((#[trigger] hittable_hit(prefix_objs[j], ray, t_min, t_max))
                            matches Some(h2) ==> h2.t > hp.t));
                assert(hittable_hit(objs[wi], ray, t_min, t_max) == Some(hp));
                // the last primitive's full-range hit, if any, lies beyond hp.t
                match hittable_hit(objs[n - 1], ray, t_min, t_max) {
                    Some(h2) => {
                        assert(!(h2.t <= bound));
                    },
                    None => {},
                }
            },
            (None, None) => {
                assert(result is None);
                match hittable_hit(objs[n - 1], ray, t_min, t_max) {
                    Some(h2) => {
                        assert(h2.t <= t_max == bound);
                        assert(false);
                    },
                    None => {},
                }
            },
        }
    }
}

impl HittableList {
    /// Intersect a ray with every primitive and return the closest
    /// acceptable hit in [t_min, t_max], if any.
    pub fn hit(&self, ray: &Ray, t_min: i128, t_max: i128) -> (r: Option<HitRecord>)
        requires
            list_wf(self@),
            ray_bounded(ray@, GEO_BOUND as int),
            abs_i(t_min as int) <= GEO_BOUND as int,
            abs_i(t_max as int) <= GEO_BOUND as int,
        ensures
            list_hit(self@, ray@, t_min as int, t_max as int) matches Some(hs) ==> (r matches Some(
            h) && h@ == hs),
            list_hit(self@, ray@, t_min as int, t_max as int) is None ==> r is None,
            r matches Some(h) ==> {
                &&& rec_wf(h@)
                &&& t_min <= h.t <= t_max
                &&& sv_dot_raw(ray@.direction, h@.normal) <= 0
            },
            r is None <==> (forall|j: int|
                0 <= j < self@.len() ==> (#[trigger] hittable_hit(
                    self@[j],
                    ray@,
                    t_min as int,
                    t_max as int,
                )) is None),
            r matches Some(h) ==> forall|j: int|
                0 <= j < self@.len() ==> ((#[trigger] hittable_hit(
                    self@[j],
                    ray@,
                    t_min as int,
                    t_max as int,
                )) matches Some(h2) ==> h@.t <= h2.t),
    {
        proof {
            lemma_list_hit_closest(self@, ray@, t_min as int, t_max as int);
        }
        let mut rec: Option<HitRecord> = None;
        let mut closest: i128 = t_max;
        let mut i: usize = 0;
        let n: usize = self.0.len();
        while i < n
            invariant
                n == self.0.len(),
                i <= n,
                list_wf(self@),
                ray_bounded(ray@, GEO_BOUND as int),
                abs_i(t_min as int) <= GEO_BOUND as int,
                abs_i(t_max as int) <= GEO_BOUND as int,
                abs_i(closest as int) <= GEO_BOUND as int,
                match rec {
                    Some(h) => {
                        &&& closest == h.t
                        &&& list_hit(self@.take(i as int), ray@, t_min as int, t_max as int)
                            == Some(h@)
                        &&& rec_wf(h@)
                        &&& t_min <= h.t <= t_max
                        &&& sv_dot_raw(ray@.direction, h@.normal) <= 0
                    },
                    None => closest == t_max && list_hit(
                        self@.take(i as int),
                        ray@,
                        t_min as int,
                        t_max as int,
                    ) is None,
                },
            decreases n - i,
        {
            proof {
                assert(self@[i as int] == self.0@[i as int]@);
                assert(hittable_wf(self@[i as int]));
            }
            let obj: &Hittable = &self.0[i];
            let res: Option<HitRecord> = obj.hit(ray, t_min, closest);
            proof {
                assert(self@.take(i as int + 1).drop_last() =~= self@.take(i as int));
                assert(self@.take(i as int + 1).last() == self@[i as int]);
            }
            match res {
                Some(h) => {
                    let tie: bool = if rec.is_some() {
                        h.t == closest
                    } else {
                        false
                    };
                    if !tie {
                        closest = h.t;
                        rec = Some(h);
                    }
                },
                None => {},
            }
            i = i + 1;
        }
        proof {
            assert(self@.take(n as int) =~= self@);
        }
        rec
    }
}

} // verus!
