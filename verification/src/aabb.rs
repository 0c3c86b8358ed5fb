//! Axis-aligned bounding boxes and slab ray intersection.

use vstd::prelude::*;
use crate::interval::{Interval, INF, NEG_INF};
use crate::ray::{Ray, COORD_MAX};
use crate::vec3::Vec3;
use crate::fx;

verus! {

#[derive(Clone, Copy, PartialEq, Eq, Structural, Debug)]
pub struct Aabb {
    pub min: Vec3,
    pub max: Vec3,
}

/// Narrowing the ray window by one axis slab. A zero direction component
/// along an axis means the ray runs parallel to that slab: it passes iff
/// its origin lies inside (boundaries included) and the window is not
/// narrowed. Otherwise the entry and exit parameters are the saturated
/// fixed-point quotients of the slab method.
pub open spec fn slab_spec(o: int, d: int, mn: int, mx: int, it: Interval) -> Option<Interval> {
    if d == 0 {
        if o < mn || o > mx {
            None
        } else {
            if it.max - it.min <= 0 {
                None
            } else {
                Some(it)
            }
        }
    } else {
        let lo = if d > 0 {
            fx::div_sat_spec(mn - o, d, NEG_INF as int, INF as int)
        } else {
            fx::div_sat_spec(o - mx, -d, NEG_INF as int, INF as int)
        };
        let hi = if d > 0 {
            fx::div_sat_spec(mx - o, d, NEG_INF as int, INF as int)
        } else {
            fx::div_sat_spec(o - mn, -d, NEG_INF as int, INF as int)
        };
        let nmin = if lo > it.min { lo } else { it.min as int };
        let nmax = if hi < it.max { hi } else { it.max as int };
        if nmax - nmin <= 0 {
            None
        } else {
            Some(Interval { min: nmin as i64, max: nmax as i64 })
        }
    }
}

/// One axis of the slab test.
fn slab(o: i64, d: i64, mn: i64, mx: i64, it: &Interval) -> (r: Option<Interval>)
    requires
        -COORD_MAX <= o <= COORD_MAX,
        -COORD_MAX <= mn <= COORD_MAX,
        -COORD_MAX <= mx <= COORD_MAX,
        i64::MIN < d,
        it.bounded(),
    ensures
        r == slab_spec(o as int, d as int, mn as int, mx as int, *it),
        r matches Some(w) ==> w.bounded() && it.min <= w.min && w.max <= it.max && w.min < w.max,
{
    if d == 0 {
        if o < mn || o > mx {
            None
        } else {
            if it.max - it.min <= 0 {
                None
            } else {
                Some(*it)
            }
        }
    } else {
        let (lo, hi) = if d > 0 {
            (fx::div_sat(mn - o, d, NEG_INF, INF), fx::div_sat(mx - o, d, NEG_INF, INF))
        } else {
            (fx::div_sat(o - mx, -d, NEG_INF, INF), fx::div_sat(o - mn, -d, NEG_INF, INF))
        };
        let nmin = if lo > it.min { lo } else { it.min };
        let nmax = if hi < it.max { hi } else { it.max };
        if nmax - nmin <= 0 {
            None
        } else {
            Some(Interval { min: nmin, max: nmax })
        }
    }
}

/// The full three-axis slab fold.
pub open spec fn hit_spec(b: Aabb, ray: Ray, it: Interval) -> Option<Interval> {
    match slab_spec(ray.origin.x as int, ray.direction.x as int, b.min.x as int, b.max.x as int, it) {
        None => None,
        Some(w0) => match slab_spec(
            ray.origin.y as int,
            ray.direction.y as int,
            b.min.y as int,
            b.max.y as int,
            w0,
        ) {
            None => None,
            Some(w1) => slab_spec(
                ray.origin.z as int,
                ray.direction.z as int,
                b.min.z as int,
                b.max.z as int,
                w1,
            ),
        },
    }
}

/// The entry parameter of one axis slab: where the ray crosses the
/// near plane, or the ends of the line for a parallel ray.
pub open spec fn axis_lo_spec(o: int, d: int, mn: int, mx: int) -> int {
    if d == 0 {
        if o < mn || o > mx {
            INF as int
        } else {
            NEG_INF as int
        }
    } else if d > 0 {
        fx::div_sat_spec(mn - o, d, NEG_INF as int, INF as int)
    } else {
        fx::div_sat_spec(o - mx, -d, NEG_INF as int, INF as int)
    }
}

/// The exit parameter of one axis slab.
pub open spec fn axis_hi_spec(o: int, d: int, mn: int, mx: int) -> int {
    if d == 0 {
        if o < mn || o > mx {
            NEG_INF as int
        } else {
            INF as int
        }
    } else if d > 0 {
        fx::div_sat_spec(mx - o, d, NEG_INF as int, INF as int)
    } else {
        fx::div_sat_spec(o - mn, -d, NEG_INF as int, INF as int)
    }
}

/// The analytic entry of the whole box: the latest of the three axis
/// entries.
pub open spec fn box_entry_spec(b: Aabb, ray: Ray) -> int {
    let lx = axis_lo_spec(ray.origin.x as int, ray.direction.x as int, b.min.x as int, b.max.x as int);
    let ly = axis_lo_spec(ray.origin.y as int, ray.direction.y as int, b.min.y as int, b.max.y as int);
    let lz = axis_lo_spec(ray.origin.z as int, ray.direction.z as int, b.min.z as int, b.max.z as int);
    let m = if lx >= ly {
        lx
    } else {
        ly
    };
    if m >= lz {
        m
    } else {
        lz
    }
}

/// The analytic exit of the whole box: the earliest of the three axis
/// exits.
pub open spec fn box_exit_spec(b: Aabb, ray: Ray) -> int {
    let hx = axis_hi_spec(ray.origin.x as int, ray.direction.x as int, b.min.x as int, b.max.x as int);
    let hy = axis_hi_spec(ray.origin.y as int, ray.direction.y as int, b.min.y as int, b.max.y as int);
    let hz = axis_hi_spec(ray.origin.z as int, ray.direction.z as int, b.min.z as int, b.max.z as int);
    let m = if hx <= hy {
        hx
    } else {
        hy
    };
    if m <= hz {
        m
    } else {
        hz
    }
}

/// Slab intersection answers exactly the intersection of the caller's
/// window with the analytic entry and exit of the box. In particular,
/// on a ray that crosses the box inside the window — the narrowed
/// window is non-empty — `hit` reports a window whose lower end is at
/// or past the analytic entry and whose upper end is at or before the
/// analytic exit; and a ray whose narrowed window is empty is
/// rejected.
pub proof fn lemma_hit_is_window(b: Aabb, ray: Ray, it: Interval)
    requires
        it.bounded(),
    ensures
        ({
            let lo = if box_entry_spec(b, ray) >= it.min {
                box_entry_spec(b, ray)
            } else {
                it.min as int
            };
            let hi = if box_exit_spec(b, ray) <= it.max {
                box_exit_spec(b, ray)
            } else {
                it.max as int
            };
            hit_spec(b, ray, it) == (if hi - lo > 0 {
                Some(Interval { min: lo as i64, max: hi as i64 })
            } else {
                None::<Interval>
            })
        }),
{
    let lx = axis_lo_spec(ray.origin.x as int, ray.direction.x as int, b.min.x as int, b.max.x as int);
    let hx = axis_hi_spec(ray.origin.x as int, ray.direction.x as int, b.min.x as int, b.max.x as int);
    let ly = axis_lo_spec(ray.origin.y as int, ray.direction.y as int, b.min.y as int, b.max.y as int);
    let hy = axis_hi_spec(ray.origin.y as int, ray.direction.y as int, b.min.y as int, b.max.y as int);
    let lz = axis_lo_spec(ray.origin.z as int, ray.direction.z as int, b.min.z as int, b.max.z as int);
    let hz = axis_hi_spec(ray.origin.z as int, ray.direction.z as int, b.min.z as int, b.max.z as int);
    let w0 = slab_spec(ray.origin.x as int, ray.direction.x as int, b.min.x as int, b.max.x as int, it);
    let m0 = if lx >= it.min {
        lx
    } else {
        it.min as int
    };
    let x0 = if hx <= it.max {
        hx
    } else {
        it.max as int
    };
    assert(w0 == (if x0 - m0 > 0 {
        Some(Interval { min: m0 as i64, max: x0 as i64 })
    } else {
        None::<Interval>
    }));
    match w0 {
        None => {
            assert(hit_spec(b, ray, it) is None);
        },
        Some(i0) => {
            let w1 = slab_spec(
                ray.origin.y as int,
                ray.direction.y as int,
                b.min.y as int,
                b.max.y as int,
                i0,
            );
            let m1 = if ly >= i0.min {
                ly
            } else {
                i0.min as int
            };
            let x1 = if hy <= i0.max {
                hy
            } else {
                i0.max as int
            };
            assert(w1 == (if x1 - m1 > 0 {
                Some(Interval { min: m1 as i64, max: x1 as i64 })
            } else {
                None::<Interval>
            }));
            match w1 {
                None => {
                    assert(hit_spec(b, ray, it) is None);
                },
                Some(i1) => {
                    let w2 = slab_spec(
                        ray.origin.z as int,
                        ray.direction.z as int,
                        b.min.z as int,
                        b.max.z as int,
                        i1,
                    );
                    let m2 = if lz >= i1.min {
                        lz
                    } else {
                        i1.min as int
                    };
                    let x2 = if hz <= i1.max {
                        hz
                    } else {
                        i1.max as int
                    };
                    assert(w2 == (if x2 - m2 > 0 {
                        Some(Interval { min: m2 as i64, max: x2 as i64 })
                    } else {
                        None::<Interval>
                    }));
                    assert(hit_spec(b, ray, it) == w2);
                },
            }
        },
    }
}

/// The slab entry of an enclosing box is never later than that of a
/// box inside it, and its exit never earlier.
proof fn lemma_axis_window_mono(o: int, d: int, mn_o: int, mx_o: int, mn_i: int, mx_i: int)
    requires
        mn_o <= mn_i,
        mx_i <= mx_o,
    ensures
        axis_lo_spec(o, d, mn_o, mx_o) <= axis_lo_spec(o, d, mn_i, mx_i),
        axis_hi_spec(o, d, mn_i, mx_i) <= axis_hi_spec(o, d, mn_o, mx_o),
{
    if d == 0 {
    } else if d > 0 {
        fx::lemma_div_sat_mono(mn_o - o, mn_i - o, d, NEG_INF as int, INF as int);
        fx::lemma_div_sat_mono(mx_i - o, mx_o - o, d, NEG_INF as int, INF as int);
    } else {
        fx::lemma_div_sat_mono(o - mx_o, o - mx_i, -d, NEG_INF as int, INF as int);
        fx::lemma_div_sat_mono(o - mn_i, o - mn_o, -d, NEG_INF as int, INF as int);
    }
}

/// Pruning on an enclosing box is sound: a hierarchy node's box is the
/// union of everything stored below it, and a ray whose window misses
/// the enclosing box misses every box inside it, so a subtree rejected
/// by the node's slab test can hold no accepted window.
pub proof fn lemma_prune_sound(outer: Aabb, inner: Aabb, ray: Ray, it: Interval)
    requires
        it.bounded(),
        outer.min.x <= inner.min.x && inner.max.x <= outer.max.x,
        outer.min.y <= inner.min.y && inner.max.y <= outer.max.y,
        outer.min.z <= inner.min.z && inner.max.z <= outer.max.z,
    ensures
        hit_spec(outer, ray, it) is None ==> hit_spec(inner, ray, it) is None,
{
    lemma_hit_is_window(outer, ray, it);
    lemma_hit_is_window(inner, ray, it);
    lemma_axis_window_mono(
        ray.origin.x as int,
        ray.direction.x as int,
        outer.min.x as int,
        outer.max.x as int,
        inner.min.x as int,
        inner.max.x as int,
    );
    lemma_axis_window_mono(
        ray.origin.y as int,
        ray.direction.y as int,
        outer.min.y as int,
        outer.max.y as int,
        inner.min.y as int,
        inner.max.y as int,
    );
    lemma_axis_window_mono(
        ray.origin.z as int,
        ray.direction.z as int,
        outer.min.z as int,
        outer.max.z as int,
        inner.min.z as int,
        inner.max.z as int,
    );
}

impl Aabb {
    /// Corners sit in the coordinate band and are ordered on every axis.
    pub open spec fn wf(self) -> bool {
        &&& self.min.bounded(COORD_MAX as int)
        &&& self.max.bounded(COORD_MAX as int)
        &&& self.min.x <= self.max.x
        &&& self.min.y <= self.max.y
        &&& self.min.z <= self.max.z
    }

    pub fn new(min: Vec3, max: Vec3) -> (r: Self)
        ensures
            r.min == min,
            r.max == max,
    {
        Self { min, max }
    }

    pub open spec fn unit_spec(a: Aabb, b: Aabb) -> Aabb {
        Aabb {
            min: Vec3 {
                x: if a.min.x <= b.min.x { a.min.x } else { b.min.x },
                y: if a.min.y <= b.min.y { a.min.y } else { b.min.y },
                z: if a.min.z <= b.min.z { a.min.z } else { b.min.z },
            },
            max: Vec3 {
                x: if a.max.x >= b.max.x { a.max.x } else { b.max.x },
                y: if a.max.y >= b.max.y { a.max.y } else { b.max.y },
                z: if a.max.z >= b.max.z { a.max.z } else { b.max.z },
            },
        }
    }

    /// The smallest box containing both arguments.
    pub fn unit(a: &Aabb, b: &Aabb) -> (r: Self)
        ensures
            r == Aabb::unit_spec(*a, *b),
            r.min.x <= a.min.x && r.min.y <= a.min.y && r.min.z <= a.min.z,
            r.min.x <= b.min.x && r.min.y <= b.min.y && r.min.z <= b.min.z,
            r.max.x >= a.max.x && r.max.y >= a.max.y && r.max.z >= a.max.z,
            r.max.x >= b.max.x && r.max.y >= b.max.y && r.max.z >= b.max.z,
            a.wf() && b.wf() ==> r.wf(),
    {
        Self {
            min: Vec3 {
                x: if a.min.x <= b.min.x { a.min.x } else { b.min.x },
                y: if a.min.y <= b.min.y { a.min.y } else { b.min.y },
                z: if a.min.z <= b.min.z { a.min.z } else { b.min.z },
            },
            max: Vec3 {
                x: if a.max.x >= b.max.x { a.max.x } else { b.max.x },
                y: if a.max.y >= b.max.y { a.max.y } else { b.max.y },
                z: if a.max.z >= b.max.z { a.max.z } else { b.max.z },
            },
        }
    }

    /// Slab intersection: narrow the window axis by axis, rejecting as
    /// soon as it becomes empty; on success the narrowed window comes
    /// back.
    pub fn hit(&self, ray: &Ray, ray_t: &Interval) -> (r: Option<Interval>)
        requires
            self.min.bounded(COORD_MAX as int),
            self.max.bounded(COORD_MAX as int),
            ray.wf(),
            ray_t.bounded(),
        ensures
            r == hit_spec(*self, *ray, *ray_t),
            r matches Some(w) ==> w.bounded() && ray_t.min <= w.min && w.max <= ray_t.max
                && w.min < w.max,
    {
        let w0 = match slab(ray.origin.x, ray.direction.x, self.min.x, self.max.x, ray_t) {
            None => {
                return None;
            },
            Some(w) => w,
        };
        let w1 = match slab(ray.origin.y, ray.direction.y, self.min.y, self.max.y, &w0) {
            None => {
                return None;
            },
            Some(w) => w,
        };
        slab(ray.origin.z, ray.direction.z, self.min.z, self.max.z, &w1)
    }
}

} // verus!
