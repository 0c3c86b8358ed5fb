//! A ray: an origin and a unit-length direction.

use vstd::prelude::*;
use crate::fx;
use crate::vec3::{Vec3, normalize_spec, len_sq_raw};

verus! {

/// Coordinate band every scene position is kept in (about two million
/// world units); products and sums of such coordinates stay far inside
/// the `i64` range.
pub const COORD_MAX: i64 = 0x20_0000_0000;

/// Directions shorter than this (a quarter of a unit, squared, at raw
/// scale 2^32) are too short to normalize accurately and are rejected.
pub const MIN_DIR_SQ: i64 = 0x1000_0000;

/// The largest ray parameter a point is ever evaluated at; a candidate
/// hit beyond it is treated as a miss, far outside any scene the
/// coordinate band can hold anyway.
pub const T_MAX: i64 = 0x10_0000_0000;

#[derive(Clone, Copy, PartialEq, Eq, Structural, Debug)]
pub struct Ray {
    pub origin: Vec3,
    pub direction: Vec3,
}

pub open spec fn at_spec(ray: Ray, t: int) -> Vec3 {
    ray.origin.add_spec(ray.direction.scale_spec(t))
}

impl Ray {
    /// The origin sits in the coordinate band and the direction came out
    /// of normalization, so each of its components is within one rounding
    /// step of `ONE`.
    pub open spec fn wf(self) -> bool {
        &&& self.origin.bounded(COORD_MAX as int)
        &&& self.direction.bounded(fx::ONE + 1)
    }

    /// A ray through `origin` along `direction`, which is normalized and
    /// must not be (nearly) the zero vector.
    pub fn new(origin: Vec3, direction: Vec3) -> (r: Ray)
        requires
            origin.bounded(COORD_MAX as int),
            direction.bounded(0x1000_0000_0000_0000),
            len_sq_raw(direction) >= MIN_DIR_SQ,
        ensures
            r.origin == origin,
            r.direction == normalize_spec(direction),
            r.wf(),
    {
        Ray { origin, direction: direction.normalize() }
    }

    /// The point `origin + t * direction`.
    pub fn at(&self, t: i64) -> (r: Vec3)
        requires
            self.wf(),
            -0x10_0000_0000 <= t <= 0x10_0000_0000,
        ensures
            r == at_spec(*self, t as int),
    {
        proof {
            lemma_at_bounds(*self, t as int);
        }
        self.origin.add(&self.direction.scale(t))
    }
}

/// The self-intersection guard: primary and bounce rays start their
/// window a little above zero.
pub const HIT_EPS: i64 = 66;

/// The sentinel color an energy-exhausted path reports.
pub open spec fn depth_sentinel_spec() -> Vec3 {
    Vec3 { x: fx::ONE, y: 0i64, z: 0i64 }
}

/// The background: a vertical blend between a horizon and a zenith
/// color, keyed by the direction's vertical component remapped into
/// the unit range.
pub open spec fn sky_spec(ray: Ray) -> Vec3 {
    let t = (ray.direction.y + fx::ONE as int) / 2;
    let top = Vec3 { x: 52429i64, y: 52429i64, z: 58982i64 };
    let bottom = Vec3 { x: 32768i64, y: 32768i64, z: 32768i64 };
    top.scale_spec(t).add_spec(bottom.scale_spec(fx::ONE - t))
}

/// The mirror of `Ray::get_color`: recurse along scattered rays until a
/// miss reaches the sky or the bounce budget runs out.
pub open spec fn ray_color_spec(
    ray: Ray,
    depth: u32,
    world: Seq<crate::hittable::HittableSurfaces>,
    state: u64,
) -> (Vec3, u64)
    decreases depth,
{
    if depth == 0 {
        (depth_sentinel_spec(), state)
    } else {
        let res = crate::hittable::list_hit_spec(
            world,
            ray,
            crate::interval::Interval { min: HIT_EPS, max: crate::interval::INF },
            state,
            None,
        );
        match res.0 {
            Some(rec) => {
                let inner = ray_color_spec(rec.scattered, (depth - 1) as u32, world, res.1);
                (inner.0.mul_comp_spec(rec.attenuation), inner.1)
            },
            None => (sky_spec(ray), res.1),
        }
    }
}

impl Ray {
    /// Trace this ray through the surface list: on a hit, the scattered
    /// ray's color filtered by the hit's attenuation; on a miss, the sky
    /// gradient; at depth zero, the sentinel color.
    pub fn get_color(
        &self,
        depth: u32,
        world: &Vec<crate::hittable::HittableSurfaces>,
        rng: &mut crate::util::Rng,
    ) -> (r: Vec3)
        requires
            self.wf(),
            crate::hittable::all_wf(world@),
        ensures
            r == ray_color_spec(*self, depth, world@, old(rng).state).0,
            final(rng).state == ray_color_spec(*self, depth, world@, old(rng).state).1,
            r.bounded(2 * fx::ONE),
        decreases depth,
    {
        if depth == 0 {
            return Vec3 { x: fx::ONE, y: 0, z: 0 };
        }
        let window = crate::interval::Interval { min: HIT_EPS, max: crate::interval::INF };
        if let Some(rec) = crate::hittable::hit_list(world, self, &window, rng) {
            let inner: Vec3 = rec.scattered.get_color(depth - 1, world, rng);
            proof {
                lemma_attenuate_bounds(inner, rec.attenuation);
            }
            return inner.mul_comp(&rec.attenuation);
        }
        let t: i64 = fx::floor_div((self.direction.y + fx::ONE) as i128, 2) as i64;
        proof {
            lemma_sky_bounds(self.direction.y as int, t as int);
        }
        let top = Vec3 { x: 52429, y: 52429, z: 58982 };
        let bottom = Vec3 { x: 32768, y: 32768, z: 32768 };
        top.scale(t).add(&bottom.scale(fx::ONE - t))
    }
}

/// Filtering a bounded color by an attenuation with unit-bounded
/// channels keeps it bounded.
proof fn lemma_attenuate_bounds(c: Vec3, a: Vec3)
    requires
        c.bounded(2 * fx::ONE),
        a.bounded(fx::ONE as int),
    ensures
        -2 * fx::ONE <= fx::mul_spec(c.x as int, a.x as int) <= 2 * fx::ONE,
        -2 * fx::ONE <= fx::mul_spec(c.y as int, a.y as int) <= 2 * fx::ONE,
        -2 * fx::ONE <= fx::mul_spec(c.z as int, a.z as int) <= 2 * fx::ONE,
{
    lemma_attenuate_component(c.x as int, a.x as int);
    lemma_attenuate_component(c.y as int, a.y as int);
    lemma_attenuate_component(c.z as int, a.z as int);
}

proof fn lemma_attenuate_component(c: int, a: int)
    requires
        -2 * fx::ONE <= c <= 2 * fx::ONE,
        -fx::ONE <= a <= fx::ONE,
    ensures
        -2 * fx::ONE <= fx::mul_spec(c, a) <= 2 * fx::ONE,
{
    assert(-(2 * (fx::ONE as int)) * (fx::ONE as int) <= c * a <= (2 * (fx::ONE as int)) * (
    fx::ONE as int)) by (nonlinear_arith)
        requires
            -2 * fx::ONE <= c <= 2 * fx::ONE,
            -fx::ONE <= a <= fx::ONE,
    ;
    fx::lemma_floor_div_range(
        c * a,
        -(2 * (fx::ONE as int)) * (fx::ONE as int),
        (2 * (fx::ONE as int)) * (fx::ONE as int),
        fx::ONE as int,
    );
    vstd::arithmetic::div_mod::lemma_div_by_multiple(2 * (fx::ONE as int), fx::ONE as int);
    assert(((-2 * (fx::ONE as int)) * (fx::ONE as int)) / (fx::ONE as int) == -2 * (
    fx::ONE as int)) by (nonlinear_arith);
    assert((2 * (fx::ONE as int)) * (fx::ONE as int) == 2 * (fx::ONE as int) * (fx::ONE as int))
        by (nonlinear_arith);
    assert((-(2 * (fx::ONE as int))) * (fx::ONE as int) == (-2 * (fx::ONE as int)) * (
    fx::ONE as int)) by (nonlinear_arith);
}

/// The sky blend parameter and both mixed terms stay small.
proof fn lemma_sky_bounds(dy: int, t: int)
    requires
        -(fx::ONE + 1) <= dy <= fx::ONE + 1,
        t == (dy + fx::ONE) / 2,
    ensures
        -1 <= t <= fx::ONE,
        -2 <= fx::mul_spec(52429, t) <= fx::ONE,
        -2 <= fx::mul_spec(58982, t) <= fx::ONE,
        0 <= fx::mul_spec(32768, fx::ONE - t) <= fx::ONE,
{
    assert(-1 <= t <= fx::ONE) by {
        fx::lemma_floor_div_range(dy + fx::ONE as int, -1, 2 * (fx::ONE as int) + 1, 2);
        assert((-1int) / 2 == -1 && (2 * (fx::ONE as int) + 1) / 2 == fx::ONE as int);
    }
    lemma_sky_term(52429, t);
    lemma_sky_term(58982, t);
    lemma_sky_term(32768, fx::ONE - t);
}

proof fn lemma_sky_term(c: int, t: int)
    requires
        0 <= c <= fx::ONE,
        -2 <= t <= fx::ONE + 2,
    ensures
        -2 <= fx::mul_spec(c, t) <= fx::ONE + 2,
{
    assert(-2 * (fx::ONE as int) <= c * t <= ((fx::ONE + 2) as int) * (fx::ONE as int))
        by (nonlinear_arith)
        requires
            0 <= c <= fx::ONE,
            -2 <= t <= fx::ONE + 2,
    ;
    fx::lemma_floor_div_range(
        c * t,
        -2 * (fx::ONE as int),
        ((fx::ONE + 2) as int) * (fx::ONE as int),
        fx::ONE as int,
    );
    assert(((-2int) * (fx::ONE as int)) / (fx::ONE as int) == -2) by (nonlinear_arith);
    vstd::arithmetic::div_mod::lemma_div_by_multiple((fx::ONE + 2) as int, fx::ONE as int);
    assert(-2 * (fx::ONE as int) == (-2int) * (fx::ONE as int)) by (nonlinear_arith);
}

/// Walking a bounded distance along a well-formed ray stays far inside
/// the `i64` range.
pub proof fn lemma_at_bounds(ray: Ray, t: int)
    requires
        ray.wf(),
        -0x10_0000_0000 <= t <= 0x10_0000_0000,
    ensures
        ray.direction.scale_spec(t).bounded(0x20_0000_0000),
        at_spec(ray, t).bounded(0x40_0000_0000),
        -0x20_0000_0000 <= fx::mul_spec(ray.direction.x as int, t) <= 0x20_0000_0000,
        -0x20_0000_0000 <= fx::mul_spec(ray.direction.y as int, t) <= 0x20_0000_0000,
        -0x20_0000_0000 <= fx::mul_spec(ray.direction.z as int, t) <= 0x20_0000_0000,
{
    lemma_scale_band(ray.direction.x as int, t);
    lemma_scale_band(ray.direction.y as int, t);
    lemma_scale_band(ray.direction.z as int, t);
}

/// One component of a unit-ish direction scaled by a bounded parameter.
proof fn lemma_scale_band(c: int, t: int)
    requires
        -(fx::ONE + 1) <= c <= fx::ONE + 1,
        -0x10_0000_0000 <= t <= 0x10_0000_0000,
    ensures
        -0x20_0000_0000 <= fx::mul_spec(c, t) <= 0x20_0000_0000,
{
    assert(-0x10_0010_0000_0000 <= c * t <= 0x10_0010_0000_0000) by (nonlinear_arith)
        requires
            -(fx::ONE + 1) <= c <= fx::ONE + 1,
            -0x10_0000_0000 <= t <= 0x10_0000_0000,
    ;
    vstd::arithmetic::div_mod::lemma_div_is_ordered(
        c * t,
        0x10_0010_0000_0000,
        fx::ONE as int,
    );
    vstd::arithmetic::div_mod::lemma_div_is_ordered(
        -0x10_0010_0000_0000,
        c * t,
        fx::ONE as int,
    );
    assert(0x10_0010_0000_0000int / (fx::ONE as int) == 0x10_0010_0000) by (nonlinear_arith);
    assert((-0x10_0010_0000_0000int) / (fx::ONE as int) == -0x10_0010_0000) by (nonlinear_arith);
}

} // verus!
