//! A scene: an ordered collection of solids, queried for the nearest hit.
use vstd::prelude::*;

use crate::hit::{HitRecord, Solid};
use crate::ray::Ray;

verus! {

/// The ordered collection of solids that make up a scene.
///
/// A scene is itself a `Solid`, so scenes can be nested.
pub struct CollisionList<T> {
    objects: Vec<T>,
}

/// `objs[i]` gives the nearest hit in the window `(t_min, t_max)`: every other
/// member's hit is at least as far, and every earlier member's is strictly farther.
pub open spec fn is_nearest<T: Solid>(objs: Seq<T>, ray: Ray, t_min: int, t_max: int, i: int) -> bool {
    &&& 0 <= i < objs.len()
    &&& objs[i].hits(ray, t_min, t_max) is Some
    &&& forall|j: int|
        0 <= j < objs.len() && (#[trigger] objs[j].hits(ray, t_min, t_max)) is Some ==> {
            let tj = objs[j].hits(ray, t_min, t_max)->Some_0.t;
            let ti = objs[i].hits(ray, t_min, t_max)->Some_0.t;
            &&& ti <= tj
            &&& j < i ==> ti < tj
        }
}

/// What the scene reports for a ray: the nearest member hit, or none when no
/// member is hit in the window.
pub open spec fn scene_hit<T: Solid>(objs: Seq<T>, ray: Ray, t_min: int, t_max: int) -> Option<HitRecord> {
    if exists|i: int| is_nearest(objs, ray, t_min, t_max, i) {
        let i = choose|i: int| is_nearest(objs, ray, t_min, t_max, i);
        objs[i].hits(ray, t_min, t_max)
    } else {
        None
    }
}

impl<T: Solid> CollisionList<T> {
    pub closed spec fn objects_spec(self) -> Seq<T> {
        self.objects@
    }

    /// The nearest hit among all members, as `hit` returns it.
    pub open spec fn hit_spec(self, ray: Ray, t_min: int, t_max: int) -> Option<HitRecord> {
        scene_hit(self.objects_spec(), ray, t_min, t_max)
    }

    /// An empty scene.
    pub fn new() -> (r: CollisionList<T>)
        ensures
            r.objects_spec() == Seq::<T>::empty(),
    {
        CollisionList { objects: Vec::new() }
    }

    /// Appends a solid to the scene.
    pub fn push(&mut self, obj: T)
        ensures
            final(self).objects_spec() == old(self).objects_spec().push(obj),
    {
        self.objects.push(obj);
    }

    /// Removes every solid.
    pub fn clear(&mut self)
        ensures
            final(self).objects_spec() == Seq::<T>::empty(),
    {
        self.objects.clear();
    }

    /// The number of solids in the scene.
    pub fn len(&self) -> (r: usize)
        ensures
            r == self.objects_spec().len(),
    {
        self.objects.len()
    }

    /// The nearest hit among all members with a parameter strictly between
    /// `pos_min` and `pos_max`; among equally near hits, the earliest member's.
    pub fn hit(&self, ray: &Ray, pos_min: i64, pos_max: i64) -> (r: Option<HitRecord>)
        ensures
            r == self.hit_spec(*ray, pos_min as int, pos_max as int),
            r is None <==> forall|j: int|
                0 <= j < self.objects_spec().len() ==> (#[trigger] self.objects_spec()[j].hits(
                    *ray,
                    pos_min as int,
                    pos_max as int,
                )) is None,
            r matches Some(h) ==> exists|i: int|
                is_nearest(self.objects_spec(), *ray, pos_min as int, pos_max as int, i)
                    && self.objects_spec()[i].hits(*ray, pos_min as int, pos_max as int)
                    == Some(h),
    {
        let ghost objs = self.objects@;
        let ghost (lo, hi) = (pos_min as int, pos_max as int);
        let mut closest_so_far: i64 = pos_max;
        let mut last_record: Option<HitRecord> = None;
        let ghost mut best: int = 0;
        let mut k: usize = 0;
        while k < self.objects.len()
            invariant
                objs == self.objects@,
                lo == pos_min,
                hi == pos_max,
                0 <= k <= objs.len(),
                last_record is None ==> closest_so_far == pos_max && forall|j: int|
                    0 <= j < k ==> (#[trigger] objs[j].hits(*ray, lo, hi)) is None,
                last_record matches Some(h) ==> {
                    &&& 0 <= best < k
                    &&& objs[best].hits(*ray, lo, hi) == Some(h)
                    &&& closest_so_far == h.t
                    &&& lo < h.t < hi
                    &&& forall|j: int|
                        0 <= j < k && (#[trigger] objs[j].hits(*ray, lo, hi)) is Some ==> {
                            let tj = objs[j].hits(*ray, lo, hi)->Some_0.t;
                            &&& h.t <= tj
                            &&& j < best ==> h.t < tj
                        }
                },
            decreases objs.len() - k,
        {
            let found = self.objects[k].hit(ray, pos_min, closest_so_far);
            proof {
                objs[k as int].lemma_window_shrinks(*ray, lo, closest_so_far as int, hi);
            }
            if let Some(rec) = found {
                closest_so_far = rec.t;
                last_record = Some(rec);
                proof {
                    best = k as int;
                }
            }
            k = k + 1;
        }
        proof {
            if let Some(h) = last_record {
                assert(is_nearest(objs, *ray, lo, hi, best));
            } else {
                assert forall|i: int| !is_nearest(objs, *ray, lo, hi, i) by {
                    if 0 <= i < objs.len() {
                        assert(objs[i].hits(*ray, lo, hi) is None);
                    }
                }
            }
            lemma_nearest_unique(objs, *ray, lo, hi);
        }
        last_record
    }
}

impl<T: Solid> Solid for CollisionList<T> {
    open spec fn hits(&self, ray: Ray, t_min: int, t_max: int) -> Option<HitRecord> {
        self.hit_spec(ray, t_min, t_max)
    }

    proof fn lemma_window_shrinks(&self, ray: Ray, t_min: int, c: int, t_max: int) {
        lemma_scene_window_shrinks(self.objects_spec(), ray, t_min, c, t_max);
    }

    fn hit(&self, ray: &Ray, pos_min: i64, pos_max: i64) -> (r: Option<HitRecord>) {
        CollisionList::hit(self, ray, pos_min, pos_max)
    }
}

/// At most one member is the nearest.
proof fn lemma_nearest_unique<T: Solid>(objs: Seq<T>, ray: Ray, t_min: int, t_max: int)
    ensures
        forall|i: int, j: int|
            is_nearest(objs, ray, t_min, t_max, i) && is_nearest(objs, ray, t_min, t_max, j) ==> i
                == j,
{
    assert forall|i: int, j: int|
        is_nearest(objs, ray, t_min, t_max, i) && is_nearest(objs, ray, t_min, t_max, j) implies i
        == j by {
        if i < j {
            assert(objs[i].hits(ray, t_min, t_max) is Some);
        } else if j < i {
            assert(objs[j].hits(ray, t_min, t_max) is Some);
        }
    }
}

/// The window law of the members carries over to the nearest of them.
proof fn lemma_scene_window_shrinks<T: Solid>(objs: Seq<T>, ray: Ray, t_min: int, c: int, t_max: int)
    requires
        i64::MIN <= t_min,
        c <= t_max <= i64::MAX,
    ensures
        scene_hit(objs, ray, t_min, c) matches Some(h) ==> scene_hit(objs, ray, t_min, t_max) == Some(h)
            && t_min < h.t < c,
        scene_hit(objs, ray, t_min, c) is None ==> (scene_hit(objs, ray, t_min, t_max) matches Some(h)
            ==> h.t >= c),
{
    assert forall|j: int| 0 <= j < objs.len() implies {
        &&& (#[trigger] objs[j].hits(ray, t_min, c)) matches Some(h) ==> objs[j].hits(ray, t_min, t_max)
            == Some(h) && t_min < h.t < c
        &&& objs[j].hits(ray, t_min, c) is None ==> (objs[j].hits(ray, t_min, t_max) matches Some(h)
            ==> h.t >= c)
    } by {
        objs[j].lemma_window_shrinks(ray, t_min, c, t_max);
    }
    lemma_nearest_unique(objs, ray, t_min, c);
    lemma_nearest_unique(objs, ray, t_min, t_max);
    if exists|i: int| is_nearest(objs, ray, t_min, c, i) {
        let i = choose|i: int| is_nearest(objs, ray, t_min, c, i);
        let h = objs[i].hits(ray, t_min, c)->Some_0;
        assert(objs[i].hits(ray, t_min, t_max) == Some(h));
        assert forall|j: int|
            0 <= j < objs.len() && (#[trigger] objs[j].hits(ray, t_min, t_max)) is Some implies {
            let tj = objs[j].hits(ray, t_min, t_max)->Some_0.t;
            &&& h.t <= tj
            &&& j < i ==> h.t < tj
        } by {
            if objs[j].hits(ray, t_min, c) is Some {
                assert(objs[j].hits(ray, t_min, t_max) == objs[j].hits(ray, t_min, c));
            }
        }
        assert(is_nearest(objs, ray, t_min, t_max, i));
    } else {
        assert forall|j: int| 0 <= j < objs.len() implies (#[trigger] objs[j].hits(ray, t_min, c)) is None by {
            if objs[j].hits(ray, t_min, c) is Some {
                lemma_has_nearest(objs, ray, t_min, c, j);
            }
        }
        if exists|i: int| is_nearest(objs, ray, t_min, t_max, i) {
            let i = choose|i: int| is_nearest(objs, ray, t_min, t_max, i);
            assert(objs[i].hits(ray, t_min, c) is None);
        }
    }
}

/// When some member is hit, one of the members is the nearest.
proof fn lemma_has_nearest<T: Solid>(objs: Seq<T>, ray: Ray, t_min: int, t_max: int, j: int)
    requires
        0 <= j < objs.len(),
        objs[j].hits(ray, t_min, t_max) is Some,
    ensures
        exists|i: int| is_nearest(objs, ray, t_min, t_max, i),
    decreases objs.len(),
{
    let last = objs.len() - 1;
    let init = objs.drop_last();
    let hl = objs[last].hits(ray, t_min, t_max);
    if j == last && (init.len() == 0 || !(exists|i: int| 0 <= i < init.len() && (#[trigger] init[i].hits(ray, t_min, t_max)) is Some)) {
        assert(is_nearest(objs, ray, t_min, t_max, last)) by {
            assert forall|k: int|
                0 <= k < objs.len() && (#[trigger] objs[k].hits(ray, t_min, t_max)) is Some implies k == last by {
                if k < last {
                    assert(init[k] == objs[k]);
                }
            }
        }
    } else {
        let j2 = if j < last {
            j
        } else {
            choose|i: int| 0 <= i < init.len() && (#[trigger] init[i].hits(ray, t_min, t_max)) is Some
        };
        assert(init[j2] == objs[j2]);
        lemma_has_nearest(init, ray, t_min, t_max, j2);
        let i = choose|i: int| is_nearest(init, ray, t_min, t_max, i);
        let hi = objs[i].hits(ray, t_min, t_max)->Some_0;
        assert(init[i] == objs[i]);
        if hl is Some && hl->Some_0.t < hi.t {
            let h2 = hl->Some_0;
            assert(is_nearest(objs, ray, t_min, t_max, last)) by {
                assert forall|k: int|
                    0 <= k < objs.len() && (#[trigger] objs[k].hits(ray, t_min, t_max)) is Some implies
                    h2.t < objs[k].hits(ray, t_min, t_max)->Some_0.t || k == last by {
                    if k < last {
                        assert(init[k] == objs[k]);
                    }
                }
            }
        } else {
            assert(is_nearest(objs, ray, t_min, t_max, i)) by {
                assert forall|k: int|
                    0 <= k < objs.len() && (#[trigger] objs[k].hits(ray, t_min, t_max)) is Some implies {
                    let tk = objs[k].hits(ray, t_min, t_max)->Some_0.t;
                    &&& hi.t <= tk
                    &&& k < i ==> hi.t < tk
                } by {
                    if k < last {
                        assert(init[k] == objs[k]);
                    }
                }
            }
        }
    }
}

} // verus!
