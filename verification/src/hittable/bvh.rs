//! A bounding-volume hierarchy: a binary tree over the surface list
//! whose traversal prunes on each node's box and shrinks the active
//! window to the best hit found so far, so the nearest hit needs no
//! explicit distance comparison.

use vstd::prelude::*;
use vstd::seq_lib::lemma_multiset_commutative;
use vstd::multiset::Multiset;
use crate::aabb::Aabb;
use crate::interval::Interval;
use crate::ray::Ray;
use crate::util::Rng;
use crate::fx;
use crate::vec3::Vec3;
use crate::hittable::{all_wf, bvh_hit_spec, bvh_wf, surface_bbox_spec, surface_hit_spec,
    surface_wf, HitRecord, HittableSurfaces};

verus! {

/// The sort key along an axis: the sum of a surface's box ends there,
/// which orders surfaces by the midpoints of their bounds.
pub open spec fn axis_key(s: HittableSurfaces, axis: int) -> int {
    surface_bbox_spec(s).min.axis_spec(axis) + surface_bbox_spec(s).max.axis_spec(axis)
}

pub open spec fn sorted_by_axis(q: Seq<HittableSurfaces>, axis: int) -> bool {
    forall|i: int, j: int|
        0 <= i < j < q.len() ==> axis_key(#[trigger] q[i], axis) <= axis_key(#[trigger] q[j], axis)
}

/// The surfaces stored at the hierarchy's leaves, in traversal order.
pub open spec fn bvh_leaves(b: BVH) -> Seq<HittableSurfaces>
    decreases b,
{
    match b.node {
        Node::Leaf(s) => seq![*s],
        Node::Branch { left, right } => bvh_leaves(*left) + bvh_leaves(*right),
    }
}

/// The median-split shape: every branch puts the rounded-down half of
/// its surfaces in the left subtree and the rest in the right, so the
/// tree's height is logarithmic in the surface count.
pub open spec fn bvh_balanced(b: BVH) -> bool
    decreases b,
{
    match b.node {
        Node::Leaf(_) => true,
        Node::Branch { left, right } => {
            &&& bvh_leaves(*left).len() == (bvh_leaves(*left).len() + bvh_leaves(
                *right,
            ).len()) as int / 2
            &&& bvh_balanced(*left)
            &&& bvh_balanced(*right)
        },
    }
}

pub enum Node {
    Branch { left: Box<BVH>, right: Box<BVH> },
    Leaf(Box<HittableSurfaces>),
}

pub struct BVH {
    pub node: Node,
    pub bbox: Aabb,
}

/// The sort key of one surface along an axis; the box ends sit in the
/// coordinate band, so their sum fits.
fn surf_key(s: &HittableSurfaces, axis: usize) -> (r: i64)
    requires
        surface_wf(*s),
    ensures
        r == axis_key(*s, axis as int),
{
    let bb: Aabb = match s.get_bbox() {
        Some(b) => b,
        None => Aabb { min: Vec3 { x: 0, y: 0, z: 0 }, max: Vec3 { x: 0, y: 0, z: 0 } },
    };
    bb.min.axis(axis) + bb.max.axis(axis)
}

/// Selection sort of the surface list by the key along one axis: the
/// result is a permutation of the input, ordered by box midpoints.
fn sort_by_axis(v: &mut Vec<HittableSurfaces>, axis: usize)
    requires
        all_wf(old(v)@),
    ensures
        final(v)@.to_multiset() == old(v)@.to_multiset(),
        final(v)@.len() == old(v)@.len(),
        sorted_by_axis(final(v)@, axis as int),
        all_wf(final(v)@),
{
    let ghost orig = v@;
    let mut out: Vec<HittableSurfaces> = Vec::new();
    proof {
        broadcast use vstd::seq_lib::group_to_multiset_ensures;

        assert(out@.to_multiset().add(v@.to_multiset()) =~= orig.to_multiset());
    }
    while v.len() > 0
        invariant
            out@.to_multiset().add(v@.to_multiset()) == orig.to_multiset(),
            out@.len() + v@.len() == orig.len(),
            sorted_by_axis(out@, axis as int),
            all_wf(out@),
            all_wf(v@),
            forall|i: int, j: int|
                0 <= i < out@.len() && 0 <= j < v@.len() ==> axis_key(
                    #[trigger] out@[i],
                    axis as int,
                ) <= axis_key(#[trigger] v@[j], axis as int),
        decreases v@.len(),
    {
        // find the index of the smallest remaining key
        let mut mi: usize = 0;
        let mut j: usize = 1;
        while j < v.len()
            invariant
                all_wf(v@),
                v@.len() > 0,
                mi < j <= v@.len(),
                forall|k: int|
                    0 <= k < j ==> axis_key(v@[mi as int], axis as int) <= axis_key(
                        #[trigger] v@[k],
                        axis as int,
                    ),
            decreases v@.len() - j,
        {
            if surf_key(&v[j], axis) < surf_key(&v[mi], axis) {
                mi = j;
            }
            j = j + 1;
        }
        let ghost pre = v@;
        let s: HittableSurfaces = v.remove(mi);
        proof {
            broadcast use vstd::seq_lib::group_to_multiset_ensures;

            assert(pre.remove(mi as int).to_multiset() =~= pre.to_multiset().remove(
                pre[mi as int],
            ));
            assert(out@.push(s).to_multiset() =~= out@.to_multiset().insert(s));
            assert(out@.push(s).to_multiset().add(v@.to_multiset()) =~= orig.to_multiset());
        }
        out.push(s);
    }
    proof {
        assert(v@.to_multiset() =~= Multiset::<HittableSurfaces>::empty());
        assert(out@.to_multiset() =~= orig.to_multiset());
    }
    *v = out;
}

/// The smallest and largest box ends of a non-empty surface list along
/// one axis, as functions of the list.
pub open spec fn lo_min_spec(q: Seq<HittableSurfaces>, axis: int) -> int
    decreases q.len(),
{
    if q.len() <= 1 {
        surface_bbox_spec(q[0]).min.axis_spec(axis) as int
    } else {
        let rest = lo_min_spec(q.drop_last(), axis);
        let last = surface_bbox_spec(q.last()).min.axis_spec(axis) as int;
        if last < rest {
            last
        } else {
            rest
        }
    }
}

pub open spec fn hi_max_spec(q: Seq<HittableSurfaces>, axis: int) -> int
    decreases q.len(),
{
    if q.len() <= 1 {
        surface_bbox_spec(q[0]).max.axis_spec(axis) as int
    } else {
        let rest = hi_max_spec(q.drop_last(), axis);
        let last = surface_bbox_spec(q.last()).max.axis_spec(axis) as int;
        if last > rest {
            last
        } else {
            rest
        }
    }
}

/// The spatial extent of the list's boxes along one axis.
fn axis_extent(v: &Vec<HittableSurfaces>, axis: usize) -> (r: i64)
    requires
        all_wf(v@),
        v@.len() >= 1,
    ensures
        r == hi_max_spec(v@, axis as int) - lo_min_spec(v@, axis as int),
{
    let first: Aabb = match v[0].get_bbox() {
        Some(b) => b,
        None => Aabb { min: Vec3 { x: 0, y: 0, z: 0 }, max: Vec3 { x: 0, y: 0, z: 0 } },
    };
    let mut lo: i64 = first.min.axis(axis);
    let mut hi: i64 = first.max.axis(axis);
    let mut i: usize = 1;
    proof {
        assert(v@.subrange(0, 1).drop_last() =~= v@.subrange(0, 0));
        assert(v@.subrange(0, 1)[0] == v@[0]);
    }
    while i < v.len()
        invariant
            all_wf(v@),
            1 <= i <= v@.len(),
            -crate::ray::COORD_MAX <= lo <= crate::ray::COORD_MAX,
            -crate::ray::COORD_MAX <= hi <= crate::ray::COORD_MAX,
            lo == lo_min_spec(v@.subrange(0, i as int), axis as int),
            hi == hi_max_spec(v@.subrange(0, i as int), axis as int),
        decreases v@.len() - i,
    {
        let bb: Aabb = match v[i].get_bbox() {
            Some(b) => b,
            None => Aabb { min: Vec3 { x: 0, y: 0, z: 0 }, max: Vec3 { x: 0, y: 0, z: 0 } },
        };
        proof {
            assert(v@.subrange(0, i as int + 1).drop_last() =~= v@.subrange(0, i as int));
            assert(v@.subrange(0, i as int + 1).last() == v@[i as int]);
        }
        let m: i64 = bb.min.axis(axis);
        if m < lo {
            lo = m;
        }
        let h: i64 = bb.max.axis(axis);
        if h > hi {
            hi = h;
        }
        i = i + 1;
    }
    proof {
        assert(v@.subrange(0, v@.len() as int) =~= v@);
    }
    hi - lo
}

impl BVH {
    /// Build the hierarchy from the whole surface list: sort along the
    /// axis of greatest extent (ties favor the earlier axis), split at
    /// the median, and recurse; a single surface becomes a leaf whose
    /// box is exactly that surface's box.
    pub fn init_from_vec(hittable_list: Vec<HittableSurfaces>) -> (r: BVH)
        requires
            hittable_list@.len() >= 1,
            all_wf(hittable_list@),
        ensures
            bvh_wf(r),
            bvh_leaves(r).to_multiset() == hittable_list@.to_multiset(),
            bvh_leaves(r).len() == hittable_list@.len(),
            bvh_balanced(r),
            hittable_list@.len() == 1 ==> (r.node matches Node::Leaf(s) && *s
                == hittable_list@[0] && r.bbox == surface_bbox_spec(hittable_list@[0])),
            hittable_list@.len() == 2 ==> (r.node matches Node::Branch { left, right }
                && left.node is Leaf && right.node is Leaf),
        decreases hittable_list@.len(),
    {
        let mut list = hittable_list;
        let ghost orig = list@;
        let len: usize = list.len();
        let ex: i64 = axis_extent(&list, 0);
        let ey: i64 = axis_extent(&list, 1);
        let ez: i64 = axis_extent(&list, 2);
        let longest_axis: usize = if ex >= ey && ex >= ez {
            0
        } else if ey >= ez {
            1
        } else {
            2
        };
        sort_by_axis(&mut list, longest_axis);
        proof {
            broadcast use vstd::seq_lib::group_to_multiset_ensures;

        }
        if len == 1 {
            let ghost pre = list@;
            let surface: HittableSurfaces = list.remove(0);
            proof {
                broadcast use vstd::seq_lib::group_to_multiset_ensures;

                assert(orig.contains(orig[0]));
                assert(pre.to_multiset().count(orig[0]) > 0);
                assert(pre.contains(orig[0]));
                assert(surface == orig[0]) by {
                    let k = choose|k: int| 0 <= k < pre.len() && pre[k] == orig[0];
                    assert(pre[0] == orig[0]);
                }
            }
            let bbox: Aabb = match surface.get_bbox() {
                Some(b) => b,
                None => Aabb { min: Vec3 { x: 0, y: 0, z: 0 }, max: Vec3 { x: 0, y: 0, z: 0 } },
            };
            let r = BVH { node: Node::Leaf(Box::new(surface)), bbox };
            proof {
                assert(bvh_leaves(r) =~= seq![surface]);
                assert(seq![surface].to_multiset() =~= orig.to_multiset()) by {
                    assert(seq![surface] =~= pre);
                }
            }
            r
        } else {
            let ghost sorted_view = list@;
            let right_vec: Vec<HittableSurfaces> = list.split_off(len / 2);
            proof {
                assert(list@ + right_vec@ =~= sorted_view);
            }
            let ghost left_view = list@;
            let ghost right_view = right_vec@;
            let left: BVH = BVH::init_from_vec(list);
            let right: BVH = BVH::init_from_vec(right_vec);
            let bbox: Aabb = Aabb::unit(&left.bbox, &right.bbox);
            let r = BVH {
                node: Node::Branch { left: Box::new(left), right: Box::new(right) },
                bbox,
            };
            proof {
                assert(bvh_leaves(r) =~= bvh_leaves(left) + bvh_leaves(right));
                lemma_multiset_commutative(bvh_leaves(left), bvh_leaves(right));
                lemma_multiset_commutative(left_view, right_view);
            }
            r
        }
    }

    /// Prune on the node's box, then traverse left before right, with
    /// the window's upper end shrunk to the left child's hit parameter.
    pub fn hit(&self, ray: &Ray, interval: &Interval, rng: &mut Rng) -> (r: Option<HitRecord>)
        requires
            bvh_wf(*self),
            ray.wf(),
            interval.bounded(),
        ensures
            r == bvh_hit_spec(*self, *ray, *interval, old(rng).state).0,
            final(rng).state == bvh_hit_spec(*self, *ray, *interval, old(rng).state).1,
            r matches Some(rec) ==> rec.scattered.wf() && interval.min <= rec.t.min
                && rec.t.min <= interval.max && rec.t.bounded() && rec.attenuation.bounded(
                fx::ONE as int,
            ),
        decreases *self, 0int,
    {
        if self.bbox.hit(ray, interval).is_none() {
            return None;
        }
        match &self.node {
            Node::Leaf(surface) => surface.hit(ray, interval, rng),
            Node::Branch { left, right } => {
                let lres: Option<HitRecord> = left.hit(ray, interval, rng);
                let narrowed: Interval = match &lres {
                    Some(l) => Interval { min: interval.min, max: l.t.min },
                    None => *interval,
                };
                let rres: Option<HitRecord> = right.hit(ray, &narrowed, rng);
                if rres.is_some() {
                    rres
                } else {
                    lres
                }
            },
        }
    }

    /// The stored box; a well-formed hierarchy always has one.
    pub fn get_bbox(&self) -> (r: Option<Aabb>)
        requires
            bvh_wf(*self),
        ensures
            r == Some(self.bbox),
            self.bbox.wf(),
    {
        Some(self.bbox)
    }
}

} // verus!
