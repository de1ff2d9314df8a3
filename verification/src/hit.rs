//! The hittable capability: hit records and the scene list that resolves
//! the closest hit.

use crate::ray::Ray;
use crate::sphere::{hit_t, lemma_sphere_hit_narrow, ray_in_range, sphere_hit, Sphere, GEOM_LIM};
use vstd::prelude::*;

verus! {

/// The result of a successful intersection: the parametric distance along
/// the ray, the intersection point, and the surface normal at it.
#[derive(Clone, Copy, Debug, PartialEq, Eq, Structural)]
pub struct HitRecord {
    pub t: i64,
    pub point: crate::vec3::Vec3,
    pub normal: crate::vec3::Vec3,
}

impl HitRecord {
    pub fn t(&self) -> (r: i64)
        ensures
            r == self.t,
    {
        self.t
    }

    pub fn point(&self) -> (r: crate::vec3::Vec3)
        ensures
            r == self.point,
    {
        self.point
    }

    pub fn normal(&self) -> (r: crate::vec3::Vec3)
        ensures
            r == self.normal,
    {
        self.normal
    }
}

/// The closest-hit fold over the members still to be queried: `closest`
/// is the running upper bound (the nearest parametric distance found so
/// far) and `best` the record it came from.
pub open spec fn list_hit_from(
    ms: Seq<Sphere>,
    r: Ray,
    t_min: int,
    closest: int,
    best: Option<HitRecord>,
) -> Option<HitRecord>
    decreases ms.len(),
{
    if ms.len() == 0 {
        best
    } else {
        match sphere_hit(ms[0], r, t_min, closest) {
            Some(h) => list_hit_from(ms.drop_first(), r, t_min, h.t as int, Some(h)),
            None => list_hit_from(ms.drop_first(), r, t_min, closest, best),
        }
    }
}

/// The closest hit among all members strictly inside `(t_min, t_max)`.
pub open spec fn list_hit(ms: Seq<Sphere>, r: Ray, t_min: int, t_max: int) -> Option<
    HitRecord,
> {
    list_hit_from(ms, r, t_min, t_max, None)
}

/// An ordered collection of spheres, queried for the closest hit.
#[derive(Debug)]
pub struct HittableList {
    list: Vec<Sphere>,
}

impl HittableList {
    /// The members, in insertion order.
    pub closed spec fn members(self) -> Seq<Sphere> {
        self.list@
    }

    /// Every member is a sphere the intersection can work on.
    pub open spec fn wf(self) -> bool {
        forall|i: int| 0 <= i < self.members().len() ==> (#[trigger] self.members()[i]).wf()
    }

    pub fn new() -> (r: HittableList)
        ensures
            r.members() == Seq::<Sphere>::empty(),
    {
        HittableList { list: Vec::new() }
    }

    /// Appends a sphere to the scene.
    pub fn push(&mut self, s: Sphere)
        ensures
            final(self).members() == old(self).members().push(s),
    {
        self.list.push(s);
    }

    pub fn len(&self) -> (n: usize)
        ensures
            n == self.members().len(),
    {
        self.list.len()
    }

    /// The closest valid hit among all members: each member is queried
    /// with the interval narrowed to the best parametric distance found so
    /// far, so a farther object behind a nearer one cannot win.
    pub fn is_hit(&self, ray: &Ray, t_min: i64, t_max: i64) -> (res: Option<HitRecord>)
        requires
            self.wf(),
            ray_in_range(*ray),
            -GEOM_LIM <= t_min <= GEOM_LIM,
            -GEOM_LIM <= t_max <= GEOM_LIM,
        ensures
            res == list_hit(self.members(), *ray, t_min as int, t_max as int),
    {
        let ghost total = list_hit(self.members(), *ray, t_min as int, t_max as int);
        proof {
            assert(self.members().skip(0) =~= self.members());
        }
        let mut best: Option<HitRecord> = None;
        let mut closest: i64 = t_max;
        let n = self.list.len();
        let mut i: usize = 0;
        while i < n
            invariant
                0 <= i <= n,
                n == self.members().len(),
                self.wf(),
                ray_in_range(*ray),
                -GEOM_LIM <= t_min <= GEOM_LIM,
                -GEOM_LIM <= closest <= GEOM_LIM,
                list_hit_from(
                    self.members().skip(i as int),
                    *ray,
                    t_min as int,
                    closest as int,
                    best,
                ) == total,
            decreases n - i,
        {
            let s = self.list[i];
            let r = s.is_hit(ray, t_min, closest);
            proof {
                let rest = self.members().skip(i as int);
                assert(rest[0] == self.members()[i as int]);
                assert(rest.drop_first() =~= self.members().skip(i as int + 1));
            }
            match r {
                Some(h) => {
                    closest = h.t;
                    best = Some(h);
                },
                None => {},
            }
            i = i + 1;
        }
        proof {
            assert(self.members().skip(n as int) =~= Seq::<Sphere>::empty());
        }
        best
    }
}

/// The scene query is a pure function of its inputs: any two results that
/// satisfy its contract on identical inputs are identical, so repeated
/// calls are bit-identical — no hidden state enters the computation.
pub proof fn lemma_is_hit_deterministic(
    ms: Seq<Sphere>,
    r: Ray,
    t_min: int,
    t_max: int,
    res1: Option<HitRecord>,
    res2: Option<HitRecord>,
)
    requires
        res1 == list_hit(ms, r, t_min, t_max),
        res2 == list_hit(ms, r, t_min, t_max),
    ensures
        res1 == res2,
{
}

/// The closest-hit fold is correct: starting from the running bound
/// `closest` and the record `best` it came from, the result is the best
/// record so far or a member's hit, and no member's hit inside the
/// interval beats it.
proof fn lemma_from_closest(
    ms: Seq<Sphere>,
    r: Ray,
    t_min: int,
    closest: int,
    best: Option<HitRecord>,
)
    requires
        -0x4000_0000 <= t_min,
        closest <= 0x4000_0000,
        best matches Some(hb) ==> hb.t as int == closest,
    ensures
        ({
            let res = list_hit_from(ms, r, t_min, closest, best);
            &&& (res is None ==> best is None && forall|j: int|
                0 <= j < ms.len() ==> (#[trigger] hit_t(ms[j], r, t_min, closest)) is None)
            &&& (res == best || exists|i: int|
                0 <= i < ms.len() && #[trigger] sphere_hit(ms[i], r, t_min, closest) == res)
            &&& (forall|j: int|
                0 <= j < ms.len() && (#[trigger] hit_t(ms[j], r, t_min, closest)) is Some
                    ==> (res matches Some(h) && h.t as int
                    <= hit_t(ms[j], r, t_min, closest)->Some_0))
            &&& (best matches Some(hb) ==> res matches Some(h) && h.t <= hb.t)
        }),
    decreases ms.len(),
{
    if ms.len() == 0 {
    } else {
        let m0 = ms[0];
        let rest = ms.drop_first();
        assert(forall|j: int| 1 <= j < ms.len() ==> ms[j] == rest[j - 1]);
        match sphere_hit(m0, r, t_min, closest) {
            Some(h0) => {
                assert(t_min < (h0.t as int) < closest);
                lemma_from_closest(rest, r, t_min, h0.t as int, Some(h0));
                let res = list_hit_from(rest, r, t_min, h0.t as int, Some(h0));
                assert(list_hit_from(ms, r, t_min, closest, best) == res);
                // lift the recursive facts from the narrowed interval
                if res != Some(h0) {
                    let i = choose|i: int|
                        0 <= i < rest.len() && #[trigger] sphere_hit(
                            rest[i],
                            r,
                            t_min,
                            h0.t as int,
                        ) == res;
                    lemma_sphere_hit_narrow(rest[i], r, t_min, closest, h0.t as int);
                    assert(sphere_hit(ms[i + 1], r, t_min, closest) == res);
                }
                assert forall|j: int|
                    0 <= j < ms.len() && (#[trigger] hit_t(ms[j], r, t_min, closest)) is Some
                    implies res matches Some(h) && h.t as int <= hit_t(
                    ms[j],
                    r,
                    t_min,
                    closest,
                )->Some_0 by {
                    let t = hit_t(ms[j], r, t_min, closest)->Some_0;
                    if j == 0 {
                        assert(t == h0.t as int);
                    } else {
                        lemma_sphere_hit_narrow(ms[j], r, t_min, closest, h0.t as int);
                        if t < h0.t as int {
                            assert(hit_t(rest[j - 1], r, t_min, h0.t as int) is Some);
                        }
                    }
                }
            },
            None => {
                lemma_from_closest(rest, r, t_min, closest, best);
                assert(list_hit_from(ms, r, t_min, closest, best) == list_hit_from(
                    rest,
                    r,
                    t_min,
                    closest,
                    best,
                ));
                let res = list_hit_from(rest, r, t_min, closest, best);
                if res != best {
                    let i = choose|i: int|
                        0 <= i < rest.len() && #[trigger] sphere_hit(rest[i], r, t_min, closest)
                            == res;
                    assert(sphere_hit(ms[i + 1], r, t_min, closest) == res);
                }
            },
        }
    }
}

/// The scene query returns the closest valid hit: if it returns a record,
/// that record is some member's own hit over the full interval, and no
/// member has a hit at a smaller parametric distance; if it returns
/// nothing, no member has a hit in the interval at all.
pub proof fn lemma_list_hit_closest(ms: Seq<Sphere>, r: Ray, t_min: int, t_max: int)
    requires
        -0x4000_0000 <= t_min,
        t_max <= 0x4000_0000,
    ensures
        ({
            let res = list_hit(ms, r, t_min, t_max);
            &&& (res is None ==> forall|j: int|
                0 <= j < ms.len() ==> (#[trigger] hit_t(ms[j], r, t_min, t_max)) is None)
            &&& (res is Some ==> exists|i: int|
                0 <= i < ms.len() && #[trigger] sphere_hit(ms[i], r, t_min, t_max) == res)
            &&& (forall|j: int|
                0 <= j < ms.len() && (#[trigger] hit_t(ms[j], r, t_min, t_max)) is Some
                    ==> (res matches Some(h) && h.t as int <= hit_t(ms[j], r, t_min, t_max)->Some_0))
        }),
{
    lemma_from_closest(ms, r, t_min, t_max, None);
}

/// For a scene of two spheres that the ray hits at distinct parametric
/// distances, the query returns the nearer hit whichever way the spheres
/// were inserted: the closest-hit result is invariant under permutation.
pub proof fn lemma_two_sphere_order(
    s1: Sphere,
    s2: Sphere,
    r: Ray,
    t_min: int,
    t_max: int,
    t1: int,
    t2: int,
)
    requires
        -0x4000_0000 <= t_min,
        t_max <= 0x4000_0000,
        hit_t(s1, r, t_min, t_max) == Some(t1),
        hit_t(s2, r, t_min, t_max) == Some(t2),
        t1 < t2,
    ensures
        list_hit(seq![s1, s2], r, t_min, t_max) == sphere_hit(s1, r, t_min, t_max),
        list_hit(seq![s2, s1], r, t_min, t_max) == sphere_hit(s1, r, t_min, t_max),
{
    let fwd = seq![s1, s2];
    let rev = seq![s2, s1];
    assert(fwd[0] == s1 && rev[0] == s2);
    assert(fwd.drop_first() =~= seq![s2]);
    assert(rev.drop_first() =~= seq![s1]);
    assert(seq![s2].drop_first() =~= Seq::<Sphere>::empty());
    assert(seq![s1].drop_first() =~= Seq::<Sphere>::empty());
    // the member queried second sees the interval narrowed to the first
    // member's parametric distance
    lemma_sphere_hit_narrow(s2, r, t_min, t_max, t1);
    lemma_sphere_hit_narrow(s1, r, t_min, t_max, t2);
    match sphere_hit(s1, r, t_min, t_max) {
        Some(a) => {
            assert(a.t as int == t1);
            // forward order: s1 wins, then s2 reports nothing nearer
            assert(sphere_hit(s2, r, t_min, t1) is None);
            assert(list_hit_from(fwd, r, t_min, t_max, None) == list_hit_from(
                seq![s2],
                r,
                t_min,
                t1,
                Some(a),
            ));
            assert(list_hit_from(seq![s2], r, t_min, t1, Some(a)) == list_hit_from(
                Seq::<Sphere>::empty(),
                r,
                t_min,
                t1,
                Some(a),
            ));
            assert(list_hit_from(Seq::<Sphere>::empty(), r, t_min, t1, Some(a)) == Some(a));
            // reverse order: s2 wins first, then s1 replaces it with the
            // nearer hit
            match sphere_hit(s2, r, t_min, t_max) {
                Some(b) => {
                    assert(b.t as int == t2);
                    assert(sphere_hit(s1, r, t_min, t2) == Some(a));
                    assert(list_hit_from(rev, r, t_min, t_max, None) == list_hit_from(
                        seq![s1],
                        r,
                        t_min,
                        t2,
                        Some(b),
                    ));
                    assert(list_hit_from(seq![s1], r, t_min, t2, Some(b)) == list_hit_from(
                        Seq::<Sphere>::empty(),
                        r,
                        t_min,
                        t1,
                        Some(a),
                    ));
                },
                None => {
                    assert(false);
                },
            }
        },
        None => {
            assert(false);
        },
    }
}

} // verus!
