//! The closed set of surface kinds and their shared hit interface: a
//! tagged union dispatched by exhaustive match, as the scene layer's
//! hottest loop wants it.

pub mod bvh;
pub mod fog;
pub mod matte_sphere;

use vstd::prelude::*;
use crate::aabb::{hit_spec as aabb_hit_spec, Aabb};
use crate::interval::{Interval, INF};
use crate::ray::Ray;
use crate::util::Rng;
use crate::vec3::Vec3;
use crate::hittable::bvh::{bvh_leaves, Node, BVH};
use crate::hittable::fog::{fog_hit_spec, Fog};
use crate::hittable::matte_sphere::{lemma_sphere_accept_shrink, lemma_sphere_hit_t,
    lemma_sphere_t_in_window, sphere_accepts_spec, sphere_bbox_spec, sphere_hit_spec,
    sphere_t_spec, MatteSphere};
use crate::ray::T_MAX;

verus! {

/// Positions and radii of scene primitives are kept within this band
/// (65536 world units), far inside the ray-origin band.
pub const SCENE_MAX: i64 = 0x1_0000_0000;

/// A scattering event: the outgoing ray, the attenuation it carries and
/// the parameter window of the hit, whose lower end is the hit
/// parameter itself.
#[derive(Clone, Copy, PartialEq, Eq, Structural, Debug)]
pub struct HitRecord {
    pub scattered: Ray,
    pub attenuation: Vec3,
    pub t: Interval,
}

pub enum HittableSurfaces {
    MatteSphere(MatteSphere),
    Fog(Fog),
    BVH(BVH),
}

/// Well-formedness across the whole surface tree: primitives sit in the
/// scene band, fog densities are positive, and every hierarchy node's
/// box is exactly the union of what lies below it.
pub open spec fn surface_wf(s: HittableSurfaces) -> bool
    decreases s,
{
    match s {
        HittableSurfaces::MatteSphere(m) => m.wf(),
        HittableSurfaces::Fog(f) => 1 <= f.density && surface_wf(*f.boundaries),
        HittableSurfaces::BVH(b) => bvh_wf(b),
    }
}

pub open spec fn bvh_wf(b: BVH) -> bool
    decreases b,
{
    &&& b.bbox.wf()
    &&& match b.node {
        Node::Leaf(s) => surface_wf(*s) && surface_bbox_spec(*s) == b.bbox,
        Node::Branch { left, right } => bvh_wf(*left) && bvh_wf(*right) && b.bbox
            == Aabb::unit_spec(left.bbox, right.bbox),
    }
}

/// The bounding box of a surface: a sphere's cube, a fog's container
/// box, a hierarchy node's stored box.
pub open spec fn surface_bbox_spec(s: HittableSurfaces) -> Aabb
    decreases s,
{
    match s {
        HittableSurfaces::MatteSphere(m) => sphere_bbox_spec(m),
        HittableSurfaces::Fog(f) => surface_bbox_spec(*f.boundaries),
        HittableSurfaces::BVH(b) => b.bbox,
    }
}

/// The mirror of dispatching `hit` over the union.
pub open spec fn surface_hit_spec(s: HittableSurfaces, ray: Ray, it: Interval, state: u64) -> (
    Option<HitRecord>,
    u64,
)
    decreases s, 1int,
{
    match s {
        HittableSurfaces::MatteSphere(m) => sphere_hit_spec(m, ray, it, state),
        HittableSurfaces::Fog(f) => fog_hit_spec(f, ray, it, state),
        HittableSurfaces::BVH(b) => bvh_hit_spec(b, ray, it, state),
    }
}

/// The mirror of hierarchy traversal: prune on the node's box, then ask
/// the left child, shrink the window to its hit parameter, ask the
/// right child inside the shrunk window, and prefer the right answer.
pub open spec fn bvh_hit_spec(b: BVH, ray: Ray, it: Interval, state: u64) -> (
    Option<HitRecord>,
    u64,
)
    decreases b, 0int,
{
    if aabb_hit_spec(b.bbox, ray, it) is None {
        (None, state)
    } else {
        match b.node {
            Node::Leaf(s) => surface_hit_spec(*s, ray, it, state),
            Node::Branch { left, right } => {
                let lres = bvh_hit_spec(*left, ray, it, state);
                let it2 = match lres.0 {
                    Some(lr) => Interval { min: it.min, max: lr.t.min },
                    None => it,
                };
                let rres = bvh_hit_spec(*right, ray, it2, lres.1);
                if rres.0 is Some {
                    rres
                } else {
                    (lres.0, rres.1)
                }
            },
        }
    }
}

/// The mirror of the linear scan: every surface is asked in turn, and
/// each accepted hit shrinks the window's upper end to its parameter,
/// so the scan ends on the nearest hit.
pub open spec fn list_hit_spec(
    surfs: Seq<HittableSurfaces>,
    ray: Ray,
    it: Interval,
    state: u64,
    best: Option<HitRecord>,
) -> (Option<HitRecord>, u64)
    decreases surfs.len(),
{
    if surfs.len() == 0 {
        (best, state)
    } else {
        let first = surface_hit_spec(surfs[0], ray, it, state);
        match first.0 {
            Some(rec) => list_hit_spec(
                surfs.skip(1),
                ray,
                Interval { min: it.min, max: rec.t.min },
                first.1,
                Some(rec),
            ),
            None => list_hit_spec(surfs.skip(1), ray, it, first.1, best),
        }
    }
}

impl HittableSurfaces {
    /// Dispatch `hit` by the surface's kind.
    pub fn hit(&self, ray: &Ray, interval: &Interval, rng: &mut Rng) -> (r: Option<HitRecord>)
        requires
            surface_wf(*self),
            ray.wf(),
            interval.bounded(),
        ensures
            r == surface_hit_spec(*self, *ray, *interval, old(rng).state).0,
            final(rng).state == surface_hit_spec(*self, *ray, *interval, old(rng).state).1,
            r matches Some(rec) ==> rec.scattered.wf() && interval.min <= rec.t.min
                && rec.t.min <= interval.max && rec.t.bounded() && rec.attenuation.bounded(
                crate::fx::ONE as int,
            ),
        decreases *self, 1int,
    {
        match self {
            HittableSurfaces::MatteSphere(sphere) => sphere.hit(ray, interval, rng),
            HittableSurfaces::Fog(fog) => fog.hit(ray, interval, rng),
            HittableSurfaces::BVH(bvh) => bvh.hit(ray, interval, rng),
        }
    }

    /// Dispatch `get_bbox` by the surface's kind; a well-formed surface
    /// always has one.
    pub fn get_bbox(&self) -> (r: Option<Aabb>)
        requires
            surface_wf(*self),
        ensures
            r == Some(surface_bbox_spec(*self)),
            surface_bbox_spec(*self).wf(),
        decreases *self,
    {
        match self {
            HittableSurfaces::MatteSphere(sphere) => sphere.get_bbox(),
            HittableSurfaces::Fog(fog) => fog.get_bbox(),
            HittableSurfaces::BVH(bvh) => bvh.get_bbox(),
        }
    }
}

/// Every surface in the list is well formed.
pub open spec fn all_wf(surfs: Seq<HittableSurfaces>) -> bool {
    forall|i: int| 0 <= i < surfs.len() ==> surface_wf(#[trigger] surfs[i])
}

/// The nearest hit over a whole list of surfaces: each accepted hit
/// shrinks the window, so later surfaces can only answer with a nearer
/// hit, and the last accepted answer wins.
pub fn hit_list(
    world: &Vec<HittableSurfaces>,
    ray: &Ray,
    interval: &Interval,
    rng: &mut Rng,
) -> (r: Option<HitRecord>)
    requires
        all_wf(world@),
        ray.wf(),
        interval.bounded(),
    ensures
        r == list_hit_spec(world@, *ray, *interval, old(rng).state, None::<HitRecord>).0,
        final(rng).state == list_hit_spec(
            world@,
            *ray,
            *interval,
            old(rng).state,
            None::<HitRecord>,
        ).1,
        r matches Some(rec) ==> rec.scattered.wf() && interval.min <= rec.t.min
            && rec.t.min <= interval.max && rec.t.bounded() && rec.attenuation.bounded(
            crate::fx::ONE as int,
        ),
{
    let ghost s0 = rng.state;
    let mut best: Option<HitRecord> = None;
    let mut cur: Interval = *interval;
    let mut i: usize = 0;
    proof {
        assert(world@.skip(0) =~= world@);
    }
    while i < world.len()
        invariant
            all_wf(world@),
            ray.wf(),
            interval.bounded(),
            cur.bounded(),
            i <= world.len(),
            cur.min == interval.min,
            list_hit_spec(world@, *ray, *interval, s0, None::<HitRecord>) == list_hit_spec(
                world@.skip(i as int),
                *ray,
                cur,
                rng.state,
                best,
            ),
            best matches Some(rec) ==> rec.scattered.wf() && interval.min <= rec.t.min
                && rec.t.min <= interval.max && rec.t.bounded() && cur.max == rec.t.min
                && rec.attenuation.bounded(crate::fx::ONE as int),
            best is None ==> cur == *interval,
        decreases world.len() - i,
    {
        let ghost pre = world@.skip(i as int);
        proof {
            assert(pre[0] == world@[i as int]);
            assert(pre.skip(1) =~= world@.skip(i as int + 1));
        }
        let surface = &world[i];
        if let Some(cur_rec) = surface.hit(ray, &cur, rng) {
            cur.max = cur_rec.t.min;
            best = Some(cur_rec);
        }
        i = i + 1;
    }
    proof {
        assert(world@.skip(world@.len() as int) =~= Seq::<HittableSurfaces>::empty());
    }
    best
}

/// The hit parameter a query reports, if any.
pub open spec fn hit_t_of(r: Option<HitRecord>) -> Option<int> {
    match r {
        None => None,
        Some(rec) => Some(rec.t.min as int),
    }
}

/// The smaller of two optional parameters; an absent side gives way.
pub open spec fn min_opt(a: Option<int>, b: Option<int>) -> Option<int> {
    match (a, b) {
        (Option::None, y) => y,
        (Option::Some(x), Option::None) => Some(x),
        (Option::Some(x), Option::Some(y)) => Some(
            if x <= y {
                x
            } else {
                y
            },
        ),
    }
}

/// A scene of spheres only: the one surface kind whose hit parameter
/// is a pure function of geometry, so the two query orders can be
/// compared hit for hit.
pub open spec fn sphere_scene(surfs: Seq<HittableSurfaces>) -> bool {
    forall|i: int| 0 <= i < surfs.len() ==> (#[trigger] surfs[i]) is MatteSphere
}

/// The box over a sphere never prunes one of its own hits: whenever
/// the sphere accepts inside a window, its box's slab test passes that
/// window too. Exact rounded arithmetic can break this on rays that
/// graze a box corner, so the agreement law carries it as a premise.
pub open spec fn box_consistent(s: HittableSurfaces, ray: Ray) -> bool {
    forall|it: Interval|
        it.bounded() && s is MatteSphere && sphere_accepts_spec(s->MatteSphere_0, ray, it)
            ==> (#[trigger] aabb_hit_spec(surface_bbox_spec(s), ray, it)) is Some
}

/// The nearest deterministic sphere hit over a list, inside a window:
/// the mathematical object both query orders compute.
pub open spec fn scan_best_spec(surfs: Seq<HittableSurfaces>, ray: Ray, it: Interval) -> Option<
    int,
>
    decreases surfs.len(),
{
    if surfs.len() == 0 {
        None
    } else {
        let rest = scan_best_spec(surfs.skip(1), ray, it);
        match surfs[0] {
            HittableSurfaces::MatteSphere(m) => if sphere_accepts_spec(m, ray, it) {
                min_opt(Some(sphere_t_spec(m, ray, it.min as int)), rest)
            } else {
                rest
            },
            HittableSurfaces::Fog(_) => rest,
            HittableSurfaces::BVH(_) => rest,
        }
    }
}

/// A scanned parameter lies inside the window and the parameter band.
proof fn lemma_scan_in_window(surfs: Seq<HittableSurfaces>, ray: Ray, it: Interval)
    ensures
        scan_best_spec(surfs, ray, it) matches Some(t) ==> it.min <= t <= it.max && -T_MAX <= t
            <= T_MAX,
    decreases surfs.len(),
{
    if surfs.len() > 0 {
        lemma_scan_in_window(surfs.skip(1), ray, it);
        match surfs[0] {
            HittableSurfaces::MatteSphere(m) => {
                if sphere_accepts_spec(m, ray, it) {
                    lemma_sphere_t_in_window(m, ray, it);
                }
            },
            _ => {},
        }
    }
}

/// Shrinking the window's upper end to a parameter already at hand
/// does not change the running minimum.
proof fn lemma_scan_shrink(surfs: Seq<HittableSurfaces>, ray: Ray, lo: i64, c: i64, m: i64)
    requires
        c <= m,
    ensures
        min_opt(Some(c as int), scan_best_spec(surfs, ray, Interval { min: lo, max: c }))
            == min_opt(Some(c as int), scan_best_spec(surfs, ray, Interval { min: lo, max: m })),
    decreases surfs.len(),
{
    if surfs.len() > 0 {
        lemma_scan_shrink(surfs.skip(1), ray, lo, c, m);
        match surfs[0] {
            HittableSurfaces::MatteSphere(s) => {
                lemma_sphere_accept_shrink(s, ray, lo, c, m);
            },
            _ => {},
        }
    }
}

/// The linear scan computes the nearest accepted parameter: the fold
/// that shrinks its window to each accepted hit ends on the minimum
/// over the whole list, combined with whatever best it started from.
proof fn lemma_list_fold_scan(
    surfs: Seq<HittableSurfaces>,
    ray: Ray,
    it: Interval,
    state: u64,
    best: Option<HitRecord>,
)
    requires
        it.bounded(),
        sphere_scene(surfs),
        best matches Some(b) ==> b.t.min == it.max,
    ensures
        hit_t_of(list_hit_spec(surfs, ray, it, state, best).0) == min_opt(
            hit_t_of(best),
            scan_best_spec(surfs, ray, it),
        ),
    decreases surfs.len(),
{
    if surfs.len() == 0 {
    } else {
        let m = surfs[0]->MatteSphere_0;
        lemma_sphere_hit_t(m, ray, it, state);
        let first = surface_hit_spec(surfs[0], ray, it, state);
        assert(sphere_scene(surfs.skip(1))) by {
            assert(forall|i: int|
                0 <= i < surfs.skip(1).len() ==> #[trigger] surfs.skip(1)[i] == surfs[i + 1]);
        }
        match first.0 {
            Some(rec) => {
                lemma_sphere_t_in_window(m, ray, it);
                let t0 = rec.t.min;
                let it2 = Interval { min: it.min, max: t0 };
                lemma_list_fold_scan(surfs.skip(1), ray, it2, first.1, Some(rec));
                lemma_scan_shrink(surfs.skip(1), ray, it.min, t0, it.max);
                lemma_scan_in_window(surfs.skip(1), ray, it);
                lemma_scan_in_window(surfs.skip(1), ray, it2);
            },
            None => {
                lemma_list_fold_scan(surfs.skip(1), ray, it, first.1, best);
            },
        }
    }
}

/// Taking minima of optional parameters is associative.
proof fn lemma_min_opt_assoc(a: Option<int>, b: Option<int>, c: Option<int>)
    ensures
        min_opt(a, min_opt(b, c)) == min_opt(min_opt(a, b), c),
{
}

/// The scan of a concatenation is the minimum of the two scans.
proof fn lemma_scan_concat(q1: Seq<HittableSurfaces>, q2: Seq<HittableSurfaces>, ray: Ray, it: Interval)
    ensures
        scan_best_spec(q1 + q2, ray, it) == min_opt(
            scan_best_spec(q1, ray, it),
            scan_best_spec(q2, ray, it),
        ),
    decreases q1.len(),
{
    if q1.len() == 0 {
        assert(q1 + q2 =~= q2);
    } else {
        assert((q1 + q2)[0] == q1[0]);
        assert((q1 + q2).skip(1) =~= q1.skip(1) + q2);
        lemma_scan_concat(q1.skip(1), q2, ray, it);
        match q1[0] {
            HittableSurfaces::MatteSphere(m) => {
                if sphere_accepts_spec(m, ray, it) {
                    lemma_min_opt_assoc(
                        Some(sphere_t_spec(m, ray, it.min as int)),
                        scan_best_spec(q1.skip(1), ray, it),
                        scan_best_spec(q2, ray, it),
                    );
                }
            },
            _ => {},
        }
    }
}

/// When no surface accepts, the scan is empty.
proof fn lemma_scan_all_reject(surfs: Seq<HittableSurfaces>, ray: Ray, it: Interval)
    requires
        forall|i: int|
            0 <= i < surfs.len() && (#[trigger] surfs[i]) is MatteSphere
                ==> !sphere_accepts_spec(surfs[i]->MatteSphere_0, ray, it),
    ensures
        scan_best_spec(surfs, ray, it) is None,
    decreases surfs.len(),
{
    if surfs.len() > 0 {
        assert(forall|i: int|
            0 <= i < surfs.skip(1).len() ==> #[trigger] surfs.skip(1)[i] == surfs[i + 1]);
        lemma_scan_all_reject(surfs.skip(1), ray, it);
    }
}

/// Every box stored below a hierarchy node sits inside the node's own
/// box, because each branch's box is the union of its children's.
proof fn lemma_leaf_box_in_node(b: BVH, i: int)
    requires
        bvh_wf(b),
        0 <= i < bvh_leaves(b).len(),
    ensures
        ({
            let inner = surface_bbox_spec(bvh_leaves(b)[i]);
            &&& b.bbox.min.x <= inner.min.x && inner.max.x <= b.bbox.max.x
            &&& b.bbox.min.y <= inner.min.y && inner.max.y <= b.bbox.max.y
            &&& b.bbox.min.z <= inner.min.z && inner.max.z <= b.bbox.max.z
        }),
    decreases b,
{
    match b.node {
        Node::Leaf(s) => {
            assert(bvh_leaves(b) =~= seq![*s]);
        },
        Node::Branch { left, right } => {
            assert(bvh_leaves(b) =~= bvh_leaves(*left) + bvh_leaves(*right));
            let nl = bvh_leaves(*left).len() as int;
            if i < nl {
                assert(bvh_leaves(b)[i] == bvh_leaves(*left)[i]);
                lemma_leaf_box_in_node(*left, i);
            } else {
                assert(bvh_leaves(b)[i] == bvh_leaves(*right)[i - nl]);
                lemma_leaf_box_in_node(*right, i - nl);
            }
        },
    }
}

/// The pruned traversal over a sphere scene reports exactly the
/// nearest accepted hit parameter inside the window, provided no box
/// prunes one of its own sphere's hits.
pub proof fn lemma_bvh_nearest(b: BVH, ray: Ray, it: Interval, state: u64)
    requires
        bvh_wf(b),
        it.bounded(),
        sphere_scene(bvh_leaves(b)),
        forall|i: int|
            0 <= i < bvh_leaves(b).len() ==> box_consistent(#[trigger] bvh_leaves(b)[i], ray),
    ensures
        hit_t_of(bvh_hit_spec(b, ray, it, state).0) == scan_best_spec(bvh_leaves(b), ray, it),
    decreases b,
{
    if aabb_hit_spec(b.bbox, ray, it) is None {
        assert forall|i: int|
            0 <= i < bvh_leaves(b).len() && (#[trigger] bvh_leaves(b)[i]) is MatteSphere implies
            !sphere_accepts_spec(bvh_leaves(b)[i]->MatteSphere_0, ray, it) by {
            lemma_leaf_box_in_node(b, i);
            crate::aabb::lemma_prune_sound(b.bbox, surface_bbox_spec(bvh_leaves(b)[i]), ray, it);
        }
        lemma_scan_all_reject(bvh_leaves(b), ray, it);
        assert(bvh_hit_spec(b, ray, it, state).0 is None);
        assert(scan_best_spec(bvh_leaves(b), ray, it) is None);
    } else {
        match b.node {
            Node::Leaf(s) => {
                let m = (*s)->MatteSphere_0;
                let lv = bvh_leaves(b);
                assert(lv =~= seq![*s]);
                assert(lv.len() == 1 && lv[0] == *s);
                lemma_sphere_hit_t(m, ray, it, state);
                assert(lv.skip(1) =~= Seq::<HittableSurfaces>::empty());
                assert(scan_best_spec(lv.skip(1), ray, it) is None);
                assert(*s is MatteSphere && (*s)->MatteSphere_0 == m);
                if sphere_accepts_spec(m, ray, it) {
                    assert(scan_best_spec(lv, ray, it) == min_opt(
                        Some(sphere_t_spec(m, ray, it.min as int)),
                        None::<int>,
                    ));
                } else {
                    assert(scan_best_spec(lv, ray, it) is None);
                }
                assert(bvh_hit_spec(b, ray, it, state) == surface_hit_spec(*s, ray, it, state));
            },
            Node::Branch { left, right } => {
                assert(bvh_leaves(b) =~= bvh_leaves(*left) + bvh_leaves(*right));
                let nl = bvh_leaves(*left).len() as int;
                assert(sphere_scene(bvh_leaves(*left)) && sphere_scene(bvh_leaves(*right))) by {
                    assert(forall|i: int|
                        0 <= i < nl ==> #[trigger] bvh_leaves(*left)[i] == bvh_leaves(b)[i]);
                    assert(forall|i: int|
                        0 <= i < bvh_leaves(*right).len()
                            ==> #[trigger] bvh_leaves(*right)[i] == bvh_leaves(b)[i + nl]);
                }
                assert(forall|i: int|
                    0 <= i < nl ==> box_consistent(#[trigger] bvh_leaves(*left)[i], ray)) by {
                    assert(forall|i: int|
                        0 <= i < nl ==> #[trigger] bvh_leaves(*left)[i] == bvh_leaves(b)[i]);
                }
                assert(forall|i: int|
                    0 <= i < bvh_leaves(*right).len() ==> box_consistent(
                        #[trigger] bvh_leaves(*right)[i],
                        ray,
                    )) by {
                    assert(forall|i: int|
                        0 <= i < bvh_leaves(*right).len()
                            ==> #[trigger] bvh_leaves(*right)[i] == bvh_leaves(b)[i + nl]);
                }
                let lres = bvh_hit_spec(*left, ray, it, state);
                lemma_bvh_nearest(*left, ray, it, state);
                lemma_scan_concat(bvh_leaves(*left), bvh_leaves(*right), ray, it);
                match lres.0 {
                    Some(lr) => {
                        lemma_scan_in_window(bvh_leaves(*left), ray, it);
                        let t0 = lr.t.min;
                        let it2 = Interval { min: it.min, max: t0 };
                        lemma_bvh_nearest(*right, ray, it2, lres.1);
                        lemma_scan_shrink(bvh_leaves(*right), ray, it.min, t0, it.max);
                        lemma_scan_in_window(bvh_leaves(*right), ray, it2);
                        let rres = bvh_hit_spec(*right, ray, it2, lres.1);
                        assert(hit_t_of(rres.0) == scan_best_spec(bvh_leaves(*right), ray, it2));
                        assert(min_opt(
                            Some(t0 as int),
                            scan_best_spec(bvh_leaves(*right), ray, it2),
                        ) == min_opt(
                            Some(t0 as int),
                            scan_best_spec(bvh_leaves(*right), ray, it),
                        ));
                        match rres.0 {
                            Some(rr) => {
                                assert(rr.t.min as int <= t0 as int);
                                assert(hit_t_of(bvh_hit_spec(b, ray, it, state).0) == Some(
                                    rr.t.min as int,
                                ));
                            },
                            None => {
                                assert(hit_t_of(bvh_hit_spec(b, ray, it, state).0) == Some(
                                    t0 as int,
                                ));
                            },
                        }
                    },
                    None => {
                        lemma_bvh_nearest(*right, ray, it, lres.1);
                        assert(hit_t_of(bvh_hit_spec(b, ray, it, state).0) == min_opt(
                            hit_t_of(lres.0),
                            scan_best_spec(bvh_leaves(*right), ray, it),
                        ));
                    },
                }
            },
        }
    }
}

/// One surface's contribution to the scan.
pub open spec fn scan_one_spec(s: HittableSurfaces, ray: Ray, it: Interval) -> Option<int> {
    match s {
        HittableSurfaces::MatteSphere(m) => if sphere_accepts_spec(m, ray, it) {
            Some(sphere_t_spec(m, ray, it.min as int))
        } else {
            None
        },
        HittableSurfaces::Fog(_) => None,
        HittableSurfaces::BVH(_) => None,
    }
}

/// Taking minima of optional parameters is commutative.
proof fn lemma_min_opt_comm(a: Option<int>, b: Option<int>)
    ensures
        min_opt(a, b) == min_opt(b, a),
{
}

/// Unfolding the scan at its head through the per-surface form.
proof fn lemma_scan_head(q: Seq<HittableSurfaces>, ray: Ray, it: Interval)
    requires
        q.len() > 0,
    ensures
        scan_best_spec(q, ray, it) == min_opt(
            scan_one_spec(q[0], ray, it),
            scan_best_spec(q.skip(1), ray, it),
        ),
{
}

/// The scan may pull any one element out in front.
proof fn lemma_scan_remove(q: Seq<HittableSurfaces>, k: int, ray: Ray, it: Interval)
    requires
        0 <= k < q.len(),
    ensures
        scan_best_spec(q, ray, it) == min_opt(
            scan_one_spec(q[k], ray, it),
            scan_best_spec(q.remove(k), ray, it),
        ),
    decreases k,
{
    lemma_scan_head(q, ray, it);
    if k == 0 {
        assert(q.remove(0) =~= q.skip(1));
    } else {
        assert(q.skip(1)[k - 1] == q[k]);
        lemma_scan_remove(q.skip(1), k - 1, ray, it);
        assert(q.remove(k).skip(1) =~= q.skip(1).remove(k - 1));
        assert(q.remove(k)[0] == q[0]);
        lemma_scan_head(q.remove(k), ray, it);
        lemma_min_opt_assoc(
            scan_one_spec(q[0], ray, it),
            scan_one_spec(q[k], ray, it),
            scan_best_spec(q.skip(1).remove(k - 1), ray, it),
        );
        lemma_min_opt_comm(scan_one_spec(q[0], ray, it), scan_one_spec(q[k], ray, it));
        lemma_min_opt_assoc(
            scan_one_spec(q[k], ray, it),
            scan_one_spec(q[0], ray, it),
            scan_best_spec(q.skip(1).remove(k - 1), ray, it),
        );
    }
}

/// The nearest accepted parameter does not depend on the order the
/// surfaces are listed in.
pub proof fn lemma_scan_permutation(
    q1: Seq<HittableSurfaces>,
    q2: Seq<HittableSurfaces>,
    ray: Ray,
    it: Interval,
)
    requires
        q1.to_multiset() == q2.to_multiset(),
    ensures
        scan_best_spec(q1, ray, it) == scan_best_spec(q2, ray, it),
    decreases q1.len(),
{
    broadcast use vstd::seq_lib::group_to_multiset_ensures;

    if q1.len() == 0 {
        assert(q2.to_multiset().len() == 0);
        assert(q2.len() == 0);
    } else {
        let h = q1[0];
        assert(q1.contains(h));
        assert(q1.to_multiset().count(h) > 0);
        assert(q2.to_multiset().count(h) > 0);
        assert(q2.contains(h));
        let k = choose|k: int| 0 <= k < q2.len() && q2[k] == h;
        lemma_scan_head(q1, ray, it);
        lemma_scan_remove(q2, k, ray, it);
        assert(q1.remove(0) =~= q1.skip(1));
        assert(q1.skip(1).to_multiset() =~= q1.to_multiset().remove(h)) by {
            assert(q1.remove(0).to_multiset() =~= q1.to_multiset().remove(q1[0]));
        }
        assert(q2.remove(k).to_multiset() =~= q2.to_multiset().remove(h));
        lemma_scan_permutation(q1.skip(1), q2.remove(k), ray, it);
    }
}

/// The hierarchy and the brute-force linear scan agree: over any
/// sphere scene whose boxes never prune their own spheres' hits, the
/// two queries report the same nearest-hit parameter — and miss
/// together — whatever the surface order and whatever the generator
/// states.
pub proof fn lemma_bvh_matches_linear_scan(
    b: BVH,
    surfs: Seq<HittableSurfaces>,
    ray: Ray,
    it: Interval,
    s1: u64,
    s2: u64,
)
    requires
        bvh_wf(b),
        it.bounded(),
        sphere_scene(surfs),
        bvh_leaves(b).to_multiset() == surfs.to_multiset(),
        forall|i: int| 0 <= i < surfs.len() ==> box_consistent(#[trigger] surfs[i], ray),
    ensures
        hit_t_of(bvh_hit_spec(b, ray, it, s1).0) == hit_t_of(
            list_hit_spec(surfs, ray, it, s2, None::<HitRecord>).0,
        ),
{
    broadcast use vstd::seq_lib::group_to_multiset_ensures;

    let lv = bvh_leaves(b);
    // the leaf properties carry over through the permutation
    assert forall|i: int| 0 <= i < lv.len() implies (#[trigger] lv[i]) is MatteSphere
        && box_consistent(lv[i], ray) by {
        assert(lv.contains(lv[i]));
        assert(lv.to_multiset().count(lv[i]) > 0);
        assert(surfs.to_multiset().count(lv[i]) > 0);
        assert(surfs.contains(lv[i]));
        let j = choose|j: int| 0 <= j < surfs.len() && surfs[j] == lv[i];
        assert(surfs[j] is MatteSphere && box_consistent(surfs[j], ray));
    }
    lemma_bvh_nearest(b, ray, it, s1);
    lemma_linear_scan_nearest(surfs, ray, it, s2);
    lemma_scan_permutation(lv, surfs, ray, it);
}

/// The linear scan over a sphere scene reports exactly the nearest
/// accepted hit parameter inside the window.
pub proof fn lemma_linear_scan_nearest(
    surfs: Seq<HittableSurfaces>,
    ray: Ray,
    it: Interval,
    state: u64,
)
    requires
        it.bounded(),
        sphere_scene(surfs),
    ensures
        hit_t_of(list_hit_spec(surfs, ray, it, state, None::<HitRecord>).0) == scan_best_spec(
            surfs,
            ray,
            it,
        ),
{
    lemma_list_fold_scan(surfs, ray, it, state, None::<HitRecord>);
}

} // verus!
