//! A diffuse sphere: the quadratic ray intersection picks the nearest
//! root inside the active window, and the scattered ray leaves the hit
//! point along the surface normal offset by a random point in the unit
//! ball.

use vstd::prelude::*;
use crate::fx;
use crate::interval::{Interval, INF, NEG_INF};
use crate::ray::{at_spec, Ray, COORD_MAX, MIN_DIR_SQ, T_MAX};
use crate::util::{ball_draw_spec, rand_unit_vec, Rng, BALL_TRIES};
use crate::vec3::{clamp_band_spec, len_sq_raw, normalize_spec, raw_dot, Vec3};
use crate::hittable::{HitRecord, SCENE_MAX};

verus! {

pub struct MatteSphere {
    pub origin: Vec3,
    pub radius: i64,
    pub attenuation: Vec3,
}

/// Saturation of a ray parameter into the representable band.
pub open spec fn sat_param(q: int) -> int {
    if q < NEG_INF as int {
        NEG_INF as int
    } else if q > INF as int {
        INF as int
    } else {
        q
    }
}

/// The mirror of `MatteSphere::hit`: the solved window and, when a hit
/// is accepted, the scattered ray built from the draw the generator
/// state provides. Yields the result and the state after the call.
pub open spec fn sphere_hit_spec(s: MatteSphere, ray: Ray, it: Interval, state: u64) -> (
    Option<HitRecord>,
    u64,
) {
    let oc = ray.origin.sub_spec(s.origin);
    let a = raw_dot(ray.direction, ray.direction);
    let b = 2 * raw_dot(oc, ray.direction);
    let c = raw_dot(oc, oc) - s.radius * s.radius;
    let disc = b * b - 4 * (a * c);
    if a <= 0 || disc < 0 {
        (None, state)
    } else {
        let sq = fx::isqrt_spec(disc as nat) as int;
        let r1 = sat_param(((-b - sq) * (fx::ONE as int)) / (2 * a));
        let r2 = sat_param(((-b + sq) * (fx::ONE as int)) / (2 * a));
        let hmin = if r1 > it.min { r1 } else { it.min as int };
        let hmax = if r2 < it.max { r2 } else { it.max as int };
        if hmax - hmin < 0 || hmin < -T_MAX || hmin > T_MAX {
            (None, state)
        } else {
            let point = at_spec(ray, hmin);
            let norm = Vec3 {
                x: fx::div_spec(point.x - s.origin.x, s.radius as int) as i64,
                y: fx::div_spec(point.y - s.origin.y, s.radius as int) as i64,
                z: fx::div_spec(point.z - s.origin.z, s.radius as int) as i64,
            };
            let bv = ball_draw_spec(state, BALL_TRIES as nat).0;
            let s1 = ball_draw_spec(state, BALL_TRIES as nat).1;
            let d0 = norm.add_spec(bv);
            let dir = if len_sq_raw(d0) >= MIN_DIR_SQ as int {
                d0
            } else {
                bv
            };
            let scattered = Ray {
                origin: clamp_band_spec(point, COORD_MAX as int),
                direction: normalize_spec(dir),
            };
            (
                Some(
                    HitRecord {
                        scattered,
                        attenuation: s.attenuation,
                        t: Interval { min: hmin as i64, max: hmax as i64 },
                    },
                ),
                s1,
            )
        }
    }
}

/// The discriminant of the ray-sphere quadratic, at raw scale.
pub open spec fn sphere_disc_spec(s: MatteSphere, ray: Ray) -> int {
    let oc = ray.origin.sub_spec(s.origin);
    let a = raw_dot(ray.direction, ray.direction);
    let b = 2 * raw_dot(oc, ray.direction);
    let c = raw_dot(oc, oc) - s.radius * s.radius;
    b * b - 4 * (a * c)
}

/// The near root of the quadratic, saturated into the parameter band.
pub open spec fn sphere_r1_spec(s: MatteSphere, ray: Ray) -> int {
    let oc = ray.origin.sub_spec(s.origin);
    let a = raw_dot(ray.direction, ray.direction);
    let b = 2 * raw_dot(oc, ray.direction);
    let sq = fx::isqrt_spec(sphere_disc_spec(s, ray) as nat) as int;
    sat_param(((-b - sq) * (fx::ONE as int)) / (2 * a))
}

/// The far root of the quadratic, saturated into the parameter band.
pub open spec fn sphere_r2_spec(s: MatteSphere, ray: Ray) -> int {
    let oc = ray.origin.sub_spec(s.origin);
    let a = raw_dot(ray.direction, ray.direction);
    let b = 2 * raw_dot(oc, ray.direction);
    let sq = fx::isqrt_spec(sphere_disc_spec(s, ray) as nat) as int;
    sat_param(((-b + sq) * (fx::ONE as int)) / (2 * a))
}

/// Whether the sphere accepts a hit inside the window: a genuine
/// direction, real roots, a non-empty overlap of the root range with
/// the window, and a representable hit parameter. Nothing here depends
/// on the generator, so acceptance is a pure function of geometry.
pub open spec fn sphere_accepts_spec(s: MatteSphere, ray: Ray, it: Interval) -> bool {
    let oc = ray.origin.sub_spec(s.origin);
    let a = raw_dot(ray.direction, ray.direction);
    &&& a > 0
    &&& sphere_disc_spec(s, ray) >= 0
    &&& ({
        let hmin = if sphere_r1_spec(s, ray) > it.min {
            sphere_r1_spec(s, ray)
        } else {
            it.min as int
        };
        let hmax = if sphere_r2_spec(s, ray) < it.max {
            sphere_r2_spec(s, ray)
        } else {
            it.max as int
        };
        hmax - hmin >= 0 && -T_MAX <= hmin <= T_MAX
    })
}

/// The hit parameter an accepted sphere reports: the near root pushed
/// up to the window's lower end. It depends on the window only through
/// that lower end.
pub open spec fn sphere_t_spec(s: MatteSphere, ray: Ray, lo: int) -> int {
    if sphere_r1_spec(s, ray) > lo {
        sphere_r1_spec(s, ray)
    } else {
        lo
    }
}

/// The stochastic hit and the deterministic characterization agree: a
/// record comes back exactly when the sphere accepts, and its hit
/// parameter is the near root pushed up to the window's lower end,
/// whatever the generator state.
pub proof fn lemma_sphere_hit_t(s: MatteSphere, ray: Ray, it: Interval, state: u64)
    ensures
        sphere_hit_spec(s, ray, it, state).0 is Some <==> sphere_accepts_spec(s, ray, it),
        sphere_accepts_spec(s, ray, it) ==> sphere_hit_spec(s, ray, it, state).0->0.t.min
            == sphere_t_spec(s, ray, it.min as int),
{
}

/// Shrinking only the window's upper end: the sphere accepts the
/// narrow window exactly when it accepts the wide one with a parameter
/// inside the narrow one, and the parameter itself does not move.
pub proof fn lemma_sphere_accept_shrink(s: MatteSphere, ray: Ray, lo: i64, t1: i64, t2: i64)
    requires
        t1 <= t2,
    ensures
        sphere_accepts_spec(s, ray, Interval { min: lo, max: t1 }) <==> (sphere_accepts_spec(
            s,
            ray,
            Interval { min: lo, max: t2 },
        ) && sphere_t_spec(s, ray, lo as int) <= t1),
{
}

/// An accepted hit parameter lies inside the window.
pub proof fn lemma_sphere_t_in_window(s: MatteSphere, ray: Ray, it: Interval)
    requires
        sphere_accepts_spec(s, ray, it),
    ensures
        it.min <= sphere_t_spec(s, ray, it.min as int) <= it.max,
        -T_MAX <= sphere_t_spec(s, ray, it.min as int) <= T_MAX,
{
}

impl MatteSphere {
    /// Center and radius sit in the scene band; the reflectance color has
    /// channels in `[0, 1]`.
    pub open spec fn wf(self) -> bool {
        &&& self.origin.bounded(SCENE_MAX as int)
        &&& 0 < self.radius <= SCENE_MAX
        &&& self.attenuation.bounded(fx::ONE as int)
    }

    pub fn new(origin: Vec3, radius: i64, attenuation: Vec3) -> (r: Self)
        ensures
            r.origin == origin,
            r.radius == radius,
            r.attenuation == attenuation,
    {
        Self { origin, radius, attenuation }
    }

    /// Solve the ray-sphere quadratic and report the nearest root inside
    /// the window, with a diffuse scattered ray.
    pub fn hit(&self, ray: &Ray, interval: &Interval, rng: &mut Rng) -> (r: Option<HitRecord>)
        requires
            self.wf(),
            ray.wf(),
            interval.bounded(),
        ensures
            r == sphere_hit_spec(*self, *ray, *interval, old(rng).state).0,
            final(rng).state == sphere_hit_spec(*self, *ray, *interval, old(rng).state).1,
            r matches Some(rec) ==> rec.scattered.wf() && interval.min <= rec.t.min
                && rec.t.min <= interval.max && rec.t.max <= interval.max && rec.t.bounded(),
    {
        let ghost s0 = rng.state;
        let oc: Vec3 = ray.origin.sub(&self.origin);
        proof {
            lemma_sphere_arith_bounds(oc, ray.direction, self.radius as int);
        }
        let a: i128 = ray.direction.raw_dot_with(&ray.direction);
        let b: i128 = 2 * oc.raw_dot_with(&ray.direction);
        let c: i128 = oc.raw_dot_with(&oc) - (self.radius as i128) * (self.radius as i128);
        let disc: i128 = b * b - 4 * (a * c);
        if a <= 0 || disc < 0 {
            return None;
        }
        let sq128: u128 = fx::isqrt(disc as u128);
        proof {
            assert(sq128 <= 0x4000_0000_0000_0000) by (nonlinear_arith)
                requires
                    sq128 * sq128 <= 0x1000_0000_0000_0000_0000_0000_0000_0000u128,
            ;
        }
        let sq: i128 = sq128 as i128;
        let r1: i64 = sat_div(-b - sq, a);
        let r2: i64 = sat_div(-b + sq, a);
        let hmin: i64 = if r1 > interval.min {
            r1
        } else {
            interval.min
        };
        let hmax: i64 = if r2 < interval.max {
            r2
        } else {
            interval.max
        };
        if hmax - hmin < 0 || hmin < -T_MAX || hmin > T_MAX {
            return None;
        }
        let point: Vec3 = ray.at(hmin);
        proof {
            crate::ray::lemma_at_bounds(*ray, hmin as int);
            lemma_norm_bounds(point, self.origin, self.radius as int);
        }
        let norm = Vec3 {
            x: fx::div(point.x - self.origin.x, self.radius),
            y: fx::div(point.y - self.origin.y, self.radius),
            z: fx::div(point.z - self.origin.z, self.radius),
        };
        let bv: Vec3 = rand_unit_vec(rng);
        let d0: Vec3 = norm.add(&bv);
        let lsq: i128 = d0.length_squared_raw();
        let dir: Vec3 = if lsq >= MIN_DIR_SQ as i128 {
            d0
        } else {
            bv
        };
        let scattered: Ray = Ray::new(point.clamp_band(COORD_MAX), dir);
        Some(
            HitRecord {
                scattered,
                attenuation: self.attenuation,
                t: Interval { min: hmin, max: hmax },
            },
        )
    }

    /// The box `center - radius ..= center + radius` on every axis.
    pub fn get_bbox(&self) -> (r: Option<crate::aabb::Aabb>)
        requires
            self.wf(),
        ensures
            r == Some(sphere_bbox_spec(*self)),
            sphere_bbox_spec(*self).wf(),
    {
        Some(
            crate::aabb::Aabb {
                min: Vec3 {
                    x: self.origin.x - self.radius,
                    y: self.origin.y - self.radius,
                    z: self.origin.z - self.radius,
                },
                max: Vec3 {
                    x: self.origin.x + self.radius,
                    y: self.origin.y + self.radius,
                    z: self.origin.z + self.radius,
                },
            },
        )
    }
}

pub open spec fn sphere_bbox_spec(s: MatteSphere) -> crate::aabb::Aabb {
    crate::aabb::Aabb {
        min: Vec3 {
            x: (s.origin.x - s.radius) as i64,
            y: (s.origin.y - s.radius) as i64,
            z: (s.origin.z - s.radius) as i64,
        },
        max: Vec3 {
            x: (s.origin.x + s.radius) as i64,
            y: (s.origin.y + s.radius) as i64,
            z: (s.origin.z + s.radius) as i64,
        },
    }
}

/// A root of the quadratic, `(n * ONE) / (2a)` saturated into the
/// representable parameter band.
fn sat_div(n: i128, a: i128) -> (r: i64)
    requires
        0 < a <= 0x8_0000_0000,
        -0x1000_0000_0000_0000_0000 <= n <= 0x1000_0000_0000_0000_0000,
    ensures
        r == sat_param((n as int * (fx::ONE as int)) / (2 * a as int)),
{
    proof {
        assert(-0x1000_0000_0000_0000_0000_0000_0000 <= (n as int) * (fx::ONE as int)
            <= 0x1000_0000_0000_0000_0000_0000_0000) by (nonlinear_arith)
            requires
                -0x1000_0000_0000_0000_0000 <= n as int <= 0x1000_0000_0000_0000_0000,
                fx::ONE == 65536,
        ;
    }
    let p: i128 = n * (fx::ONE as i128);
    let q: i128 = fx::floor_div(p, 2 * a);
    if q < NEG_INF as i128 {
        NEG_INF
    } else if q > INF as i128 {
        INF
    } else {
        q as i64
    }
}

/// All intermediate quantities of the quadratic stay far inside `i128`.
proof fn lemma_sphere_arith_bounds(oc: Vec3, d: Vec3, radius: int)
    requires
        oc.bounded(0x40_0000_0000),
        d.bounded(fx::ONE + 1),
        0 < radius <= SCENE_MAX,
    ensures
        0 <= raw_dot(d, d) <= 0x8_0000_0000,
        -0x1000_0000_0000_0000 <= raw_dot(oc, d) <= 0x1000_0000_0000_0000,
        raw_dot(oc, oc) >= 0,
        -0x8_0000_0000_0000_0000_0000 <= raw_dot(oc, oc) - radius * radius
            <= 0x8_0000_0000_0000_0000_0000,
        -0x40_0000_0000_0000_0000_0000_0000_0000 <= raw_dot(d, d) * (raw_dot(oc, oc) - radius
            * radius) <= 0x40_0000_0000_0000_0000_0000_0000_0000,
        -0x1000_0000_0000_0000_0000_0000_0000_0000 <= (2 * raw_dot(oc, d)) * (2 * raw_dot(oc, d))
            - 4 * (raw_dot(d, d) * (raw_dot(oc, oc) - radius * radius))
            <= 0x1000_0000_0000_0000_0000_0000_0000_0000,
        0 <= radius * radius <= 0x1_0000_0000_0000_0000,
        0 <= (2 * raw_dot(oc, d)) * (2 * raw_dot(oc, d))
            <= 0x400_0000_0000_0000_0000_0000_0000_0000,
        -0x40_0000_0000_0000_0000_0000_0000_0000 <= raw_dot(d, d) * (raw_dot(oc, oc) - radius
            * radius) <= 0x40_0000_0000_0000_0000_0000_0000_0000,
{
    crate::vec3::lemma_raw_dot_bound(d, d, fx::ONE + 1, fx::ONE + 1);
    crate::vec3::lemma_raw_dot_bound(oc, d, 0x40_0000_0000, fx::ONE + 1);
    crate::vec3::lemma_raw_dot_bound(oc, oc, 0x40_0000_0000, 0x40_0000_0000);
    assert(raw_dot(d, d) >= 0 && raw_dot(oc, oc) >= 0) by (nonlinear_arith)
        requires
            raw_dot(d, d) == d.x * d.x + d.y * d.y + d.z * d.z,
            raw_dot(oc, oc) == oc.x * oc.x + oc.y * oc.y + oc.z * oc.z,
    ;
    assert(0 <= radius * radius <= 0x1_0000_0000_0000_0000) by (nonlinear_arith)
        requires
            0 < radius <= 0x1_0000_0000,
    ;
    assert(3int * (0x40_0000_0000) * (fx::ONE + 1) <= 0x1000_0000_0000_0000)
        by (nonlinear_arith);
    assert(3int * (fx::ONE + 1) * (fx::ONE + 1) <= 0x8_0000_0000) by (nonlinear_arith);
    assert(3int * (0x40_0000_0000) * (0x40_0000_0000) <= 0x4_0000_0000_0000_0000_0000)
        by (nonlinear_arith);
    let a = raw_dot(d, d);
    let b = 2 * raw_dot(oc, d);
    let c = raw_dot(oc, oc) - radius * radius;
    assert(-0x40_0000_0000_0000_0000_0000_0000_0000 <= a * c
        <= 0x40_0000_0000_0000_0000_0000_0000_0000 && 0 <= b * b
        <= 0x400_0000_0000_0000_0000_0000_0000_0000) by (nonlinear_arith)
        requires
            0 <= a <= 0x8_0000_0000,
            -0x2000_0000_0000_0000 <= b <= 0x2000_0000_0000_0000,
            -0x8_0000_0000_0000_0000_0000 <= c <= 0x8_0000_0000_0000_0000_0000,
    ;
}

/// The normal's components, after division by the radius, stay inside
/// the band `Ray::new` asks of a direction.
proof fn lemma_norm_bounds(point: Vec3, center: Vec3, radius: int)
    requires
        point.bounded(0x40_0000_0000),
        center.bounded(SCENE_MAX as int),
        0 < radius <= SCENE_MAX,
    ensures
        -0x42_0000_0000_0000 <= fx::div_spec(point.x - center.x, radius) <= 0x42_0000_0000_0000,
        -0x42_0000_0000_0000 <= fx::div_spec(point.y - center.y, radius) <= 0x42_0000_0000_0000,
        -0x42_0000_0000_0000 <= fx::div_spec(point.z - center.z, radius) <= 0x42_0000_0000_0000,
{
    lemma_norm_component(point.x - center.x, radius);
    lemma_norm_component(point.y - center.y, radius);
    lemma_norm_component(point.z - center.z, radius);
}

proof fn lemma_norm_component(delta: int, radius: int)
    requires
        -0x41_0000_0000 <= delta <= 0x41_0000_0000,
        radius >= 1,
    ensures
        -0x42_0000_0000_0000 <= fx::div_spec(delta, radius) <= 0x42_0000_0000_0000,
{
    assert(-0x41_0000_0000_0000 <= delta * (fx::ONE as int) <= 0x41_0000_0000_0000)
        by (nonlinear_arith)
        requires
            -0x41_0000_0000 <= delta <= 0x41_0000_0000,
            fx::ONE == 65536,
    ;
    fx::lemma_div_mag_bound(delta * (fx::ONE as int), radius, 0x42_0000_0000_0000);
}

} // verus!
