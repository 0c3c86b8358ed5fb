//! A homogeneous participating medium filling a container surface: one
//! stochastic scattering event per traversal, with a free-flight
//! distance drawn from an exponential distribution.

use vstd::prelude::*;
use crate::fx;
use crate::aabb::Aabb;
use crate::interval::{Interval, INF};
use crate::ray::{at_spec, Ray, COORD_MAX, T_MAX};
use crate::util::{ball_draw_spec, next_state_spec, pos_unit_draw_spec, rand_unit_vec, Rng,
    BALL_TRIES};
use crate::vec3::{clamp_band_spec, len_spec, len_sq_raw, normalize_spec, Vec3};
use crate::hittable::{surface_bbox_spec, surface_hit_spec, surface_wf, HitRecord,
    HittableSurfaces};

verus! {

pub struct Fog {
    pub boundaries: Box<HittableSurfaces>,
    pub density: i64,
}

/// The mirror of `Fog::hit`. The container is intersected over the full
/// forward window; the travel interval is narrowed by the caller's
/// window; a free-flight distance `-ln(u) / density` decides whether a
/// scattering event happens inside the segment.
pub open spec fn fog_hit_spec(f: Fog, ray: Ray, it: Interval, state: u64) -> (
    Option<HitRecord>,
    u64,
)
    decreases f, 2int,
{
    let inner = surface_hit_spec(*f.boundaries, ray, Interval { min: 0, max: INF }, state);
    match inner.0 {
        None => (None, inner.1),
        Some(brec) => {
            let it2 = brec.t.intersect_spec(it);
            if it2.max - it2.min < 0 {
                (None, inner.1)
            } else {
                let u = pos_unit_draw_spec(inner.1);
                let s2 = next_state_spec(inner.1);
                let ray_len = len_spec(ray.direction);
                if ray_len <= 0 {
                    (None, s2)
                } else {
                    let seg = fx::mul_spec(it2.max - it2.min, ray_len);
                    let hit_dist = fx::div_spec(fx::neg_ln_spec(u), f.density as int);
                    if hit_dist > seg {
                        (None, s2)
                    } else {
                        let t = it2.min + fx::div_spec(hit_dist, ray_len);
                        if t < -T_MAX || t > T_MAX || t > it2.max {
                            (None, s2)
                        } else {
                            let point = at_spec(ray, t);
                            let bv = ball_draw_spec(s2, BALL_TRIES as nat).0;
                            let s3 = ball_draw_spec(s2, BALL_TRIES as nat).1;
                            let scattered = Ray {
                                origin: clamp_band_spec(point, COORD_MAX as int),
                                direction: normalize_spec(bv),
                            };
                            (
                                Some(
                                    HitRecord {
                                        scattered,
                                        attenuation: brec.attenuation,
                                        t: Interval { min: t as i64, max: it2.max },
                                    },
                                ),
                                s3,
                            )
                        }
                    }
                }
            }
        },
    }
}

impl Fog {
    /// Wrap a container surface with a medium of the given density,
    /// a positive fixed-point rate per world unit.
    pub fn new(boundaries: HittableSurfaces, density: i64) -> (r: Self)
        ensures
            r.boundaries == boundaries,
            r.density == density,
    {
        Self { boundaries: Box::new(boundaries), density }
    }

    /// One stochastic scattering event inside the container, if the
    /// drawn free-flight distance ends inside the traversal segment.
    pub fn hit(&self, ray: &Ray, interval: &Interval, rng: &mut Rng) -> (r: Option<HitRecord>)
        requires
            1 <= self.density,
            surface_wf(*self.boundaries),
            ray.wf(),
            interval.bounded(),
        ensures
            r == fog_hit_spec(*self, *ray, *interval, old(rng).state).0,
            final(rng).state == fog_hit_spec(*self, *ray, *interval, old(rng).state).1,
            r matches Some(rec) ==> rec.scattered.wf() && interval.min <= rec.t.min
                && rec.t.min <= interval.max && rec.t.bounded() && rec.attenuation.bounded(
                fx::ONE as int,
            ),
        decreases *self, 2int,
    {
        let full = Interval::ray();
        let inner: Option<HitRecord> = self.boundaries.hit(ray, &full, rng);
        let brec = match inner {
            None => {
                return None;
            },
            Some(b) => b,
        };
        let it2: Interval = brec.t.intersect(interval);
        if it2.max - it2.min < 0 {
            return None;
        }
        let u: i64 = rng.next_pos_unit();
        let ray_len: i64 = ray.direction.length();
        if ray_len <= 0 {
            return None;
        }
        proof {
            lemma_dir_len_bound(ray.direction);
            lemma_seg_bounds(it2.max - it2.min, ray_len as int);
        }
        let seg: i64 = fx::mul(it2.max - it2.min, ray_len);
        let nl: i64 = fx::neg_ln(u);
        proof {
            fx::lemma_div_mag_bound(nl as int * (fx::ONE as int), self.density as int, 0x10_0000int * 0x1_0000);
            assert(nl as int * (fx::ONE as int) <= 0x10_0000int * 0x1_0000) by (nonlinear_arith)
                requires
                    0 <= nl as int <= 0x10_0000,
                    fx::ONE == 65536,
            ;
            assert(nl as int * (fx::ONE as int) >= 0) by (nonlinear_arith)
                requires
                    nl >= 0,
            ;
        }
        let hit_dist: i64 = fx::div(nl, self.density);
        if hit_dist > seg {
            return None;
        }
        proof {
            assert(0 <= hit_dist as int * (fx::ONE as int)
                <= 0x8000_0000_0000_0000_0000) by (nonlinear_arith)
                requires
                    0 <= hit_dist <= 0x8000_0000_0000_0000,
                    fx::ONE == 65536,
            ;
        }
        let tadd: i128 = fx::floor_div(
            (hit_dist as i128) * (fx::ONE as i128),
            ray_len as i128,
        );
        let t128: i128 = (it2.min as i128) + tadd;
        if t128 < -(T_MAX as i128) || t128 > T_MAX as i128 || t128 > it2.max as i128 {
            return None;
        }
        let t: i64 = t128 as i64;
        let point: Vec3 = ray.at(t);
        let bv: Vec3 = rand_unit_vec(rng);
        let scattered: Ray = Ray::new(point.clamp_band(COORD_MAX), bv);
        Some(
            HitRecord {
                scattered,
                attenuation: brec.attenuation,
                t: Interval { min: t, max: it2.max },
            },
        )
    }

    /// The container's box bounds the medium.
    pub fn get_bbox(&self) -> (r: Option<Aabb>)
        requires
            surface_wf(*self.boundaries),
        ensures
            r == Some(surface_bbox_spec(*self.boundaries)),
            surface_bbox_spec(*self.boundaries).wf(),
        decreases *self,
    {
        self.boundaries.get_bbox()
    }
}

/// The free-flight distance is antitone in the density: a denser
/// medium scatters no later than a thinner one, for the same draw.
pub proof fn lemma_flight_antitone(u: int, d1: int, d2: int)
    requires
        1 <= u <= fx::ONE,
        1 <= d1 <= d2,
    ensures
        fx::div_spec(fx::neg_ln_spec(u), d1) >= fx::div_spec(fx::neg_ln_spec(u), d2),
{
    fx::lemma_neg_ln_props(u);
    let nl = fx::neg_ln_spec(u);
    assert(nl * (fx::ONE as int) >= 0) by (nonlinear_arith)
        requires
            nl >= 0,
    ;
    vstd::arithmetic::div_mod::lemma_div_is_ordered_by_denominator(
        nl * (fx::ONE as int),
        d1,
        d2,
    );
}

/// As the density falls toward zero the medium stops attenuating: once
/// it is small enough against the drawn flight length, the wrapper
/// reports no scattering event at all and the ray passes through.
pub proof fn lemma_fog_thin_passes(f: Fog, ray: Ray, it: Interval, state: u64)
    requires
        1 <= f.density,
        ({
            let inner = surface_hit_spec(*f.boundaries, ray, Interval { min: 0, max: INF }, state);
            inner.0 matches Some(brec) ==> {
                let it2 = brec.t.intersect_spec(it);
                let u = pos_unit_draw_spec(inner.1);
                let ray_len = len_spec(ray.direction);
                let seg = fx::mul_spec(it2.max - it2.min, ray_len);
                &&& 1 <= u <= fx::ONE
                &&& fx::neg_ln_spec(u) * (fx::ONE as int) >= f.density * (seg + 1)
            }
        }),
    ensures
        fog_hit_spec(f, ray, it, state).0 is None,
{
    let inner = surface_hit_spec(*f.boundaries, ray, Interval { min: 0, max: INF }, state);
    match inner.0 {
        None => {},
        Some(brec) => {
            let it2 = brec.t.intersect_spec(it);
            if it2.max - it2.min >= 0 {
                let u = pos_unit_draw_spec(inner.1);
                let ray_len = len_spec(ray.direction);
                if ray_len > 0 {
                    let seg = fx::mul_spec(it2.max - it2.min, ray_len);
                    let nl = fx::neg_ln_spec(u);
                    vstd::arithmetic::div_mod::lemma_div_is_ordered(
                        (f.density as int) * (seg + 1),
                        nl * (fx::ONE as int),
                        f.density as int,
                    );
                    vstd::arithmetic::div_mod::lemma_div_multiples_vanish(seg + 1, f.density as int);
                    assert(fx::div_spec(nl, f.density as int) >= seg + 1);
                }
            }
        },
    }
}

/// As the density grows without bound the medium becomes a surface:
/// once it exceeds the drawn logarithm, the free-flight distance is at
/// most one world unit, so any scattering event lands hard against the
/// segment's entry.
pub proof fn lemma_dense_flight_short(u: int, d: int)
    requires
        1 <= u <= fx::ONE,
        1 <= d,
        d >= fx::neg_ln_spec(u),
    ensures
        0 <= fx::div_spec(fx::neg_ln_spec(u), d) <= fx::ONE,
{
    fx::lemma_neg_ln_props(u);
    let nl = fx::neg_ln_spec(u);
    assert(0 <= nl * (fx::ONE as int) <= d * (fx::ONE as int)) by (nonlinear_arith)
        requires
            0 <= nl <= d,
            fx::ONE == 65536,
    ;
    vstd::arithmetic::div_mod::lemma_div_is_ordered(
        nl * (fx::ONE as int),
        d * (fx::ONE as int),
        d,
    );
    vstd::arithmetic::div_mod::lemma_div_multiples_vanish(fx::ONE as int, d);
    assert(d * (fx::ONE as int) == d * (fx::ONE as int));
    fx::lemma_floor_div_range(nl * (fx::ONE as int), 0, d * (fx::ONE as int), d);
    assert(0int / d == 0) by (nonlinear_arith)
        requires
            d >= 1,
    ;
}

/// As the density grows without bound the medium becomes a surface:
/// once it is large against the drawn logarithm both absolutely and
/// relative to the traversal segment, the wrapper always reports a
/// scattering event, and the event lies within one unit's worth of
/// parameter of the segment's entry.
pub proof fn lemma_fog_dense_scatters(f: Fog, ray: Ray, it: Interval, state: u64)
    requires
        1 <= f.density,
        ({
            let inner = surface_hit_spec(*f.boundaries, ray, Interval { min: 0, max: INF }, state);
            &&& inner.0 is Some
            &&& ({
                let brec = inner.0->0;
                let it2 = brec.t.intersect_spec(it);
                let u = pos_unit_draw_spec(inner.1);
                let ray_len = len_spec(ray.direction);
                let seg = fx::mul_spec(it2.max - it2.min, ray_len);
                &&& 1 <= u <= fx::ONE
                &&& 1 <= ray_len
                &&& 0 <= seg
                &&& 0 <= it2.min
                &&& it2.min <= it2.max <= T_MAX
                &&& f.density * seg >= fx::neg_ln_spec(u) * (fx::ONE as int)
                &&& f.density >= fx::neg_ln_spec(u)
            })
        }),
    ensures
        fog_hit_spec(f, ray, it, state).0 is Some,
        ({
            let inner = surface_hit_spec(*f.boundaries, ray, Interval { min: 0, max: INF }, state);
            let brec = inner.0->0;
            let it2 = brec.t.intersect_spec(it);
            let ray_len = len_spec(ray.direction);
            fog_hit_spec(f, ray, it, state).0->0.t.min <= it2.min + fx::div_spec(
                fx::ONE as int,
                ray_len,
            )
        }),
{
    let inner = surface_hit_spec(*f.boundaries, ray, Interval { min: 0, max: INF }, state);
    let brec = inner.0->0;
    let it2 = brec.t.intersect_spec(it);
    let u = pos_unit_draw_spec(inner.1);
    let ray_len = len_spec(ray.direction);
    let size = it2.max - it2.min;
    let seg = fx::mul_spec(size, ray_len);
    let nl = fx::neg_ln_spec(u);
    fx::lemma_neg_ln_props(u);
    let d = f.density as int;
    let hd = fx::div_spec(nl, d);
    // the flight ends inside the segment
    assert(hd <= seg) by {
        assert(nl * (fx::ONE as int) <= d * seg);
        vstd::arithmetic::div_mod::lemma_div_is_ordered(nl * (fx::ONE as int), d * seg, d);
        vstd::arithmetic::div_mod::lemma_div_multiples_vanish(seg, d);
    }
    // and it is at most one unit long
    lemma_dense_flight_short(u, d);
    assert(0 <= hd <= fx::ONE);
    // so the hit parameter stays inside the segment
    let tadd = fx::div_spec(hd, ray_len);
    assert(0 <= tadd) by {
        assert(0 <= hd * (fx::ONE as int)) by (nonlinear_arith)
            requires
                0 <= hd,
        ;
        fx::lemma_floor_div_range(hd * (fx::ONE as int), 0, hd * (fx::ONE as int), ray_len);
        assert(0int / ray_len == 0) by (nonlinear_arith)
            requires
                ray_len >= 1,
        ;
    }
    assert(tadd <= size) by {
        vstd::arithmetic::div_mod::lemma_fundamental_div_mod(size * ray_len, fx::ONE as int);
        vstd::arithmetic::div_mod::lemma_mod_bound(size * ray_len, fx::ONE as int);
        assert(seg * (fx::ONE as int) <= size * ray_len) by (nonlinear_arith)
            requires
                size * ray_len == (fx::ONE as int) * seg + (size * ray_len) % (fx::ONE as int),
                0 <= (size * ray_len) % (fx::ONE as int),
        ;
        assert(hd * (fx::ONE as int) <= seg * (fx::ONE as int)) by (nonlinear_arith)
            requires
                hd <= seg,
                fx::ONE == 65536,
        ;
        vstd::arithmetic::div_mod::lemma_div_is_ordered(
            hd * (fx::ONE as int),
            size * ray_len,
            ray_len,
        );
        assert(size * ray_len == ray_len * size) by (nonlinear_arith);
        vstd::arithmetic::div_mod::lemma_div_multiples_vanish(size, ray_len);
    }
    // and within one unit's worth of the entry
    assert(tadd <= fx::div_spec(fx::ONE as int, ray_len)) by {
        assert(hd * (fx::ONE as int) <= (fx::ONE as int) * (fx::ONE as int)) by (nonlinear_arith)
            requires
                hd <= fx::ONE,
                fx::ONE == 65536,
        ;
        vstd::arithmetic::div_mod::lemma_div_is_ordered(
            hd * (fx::ONE as int),
            (fx::ONE as int) * (fx::ONE as int),
            ray_len,
        );
    }
    let t = it2.min + tadd;
    assert(0 <= t <= it2.max);
}

/// The world-length of a bounded traversal segment fits comfortably.
proof fn lemma_seg_bounds(size: int, ray_len: int)
    requires
        0 <= size <= INF as int,
        0 < ray_len <= 0x2_0000,
    ensures
        0 <= fx::mul_spec(size, ray_len) <= 2 * (INF as int),
{
    assert(0 <= size * ray_len <= (2 * (INF as int)) * (fx::ONE as int)) by (nonlinear_arith)
        requires
            0 <= size <= INF as int,
            0 < ray_len <= 0x2_0000,
            fx::ONE == 65536,
            INF == 0x2000_0000_0000_0000i64,
    ;
    fx::lemma_floor_div_range(size * ray_len, 0, (2 * (INF as int)) * (fx::ONE as int), fx::ONE as int);
    vstd::arithmetic::div_mod::lemma_div_by_multiple(2 * (INF as int), fx::ONE as int);
    assert(0int / 65536 == 0) by (nonlinear_arith);
}

/// The length of a normalized direction is below two units.
proof fn lemma_dir_len_bound(v: Vec3)
    requires
        v.bounded(fx::ONE + 1),
    ensures
        0 <= len_spec(v) <= 0x1_ffff,
{
    crate::vec3::lemma_raw_dot_bound(v, v, fx::ONE + 1, fx::ONE + 1);
    let raw = len_sq_raw(v);
    assert(raw >= 0) by (nonlinear_arith)
        requires
            raw == v.x * v.x + v.y * v.y + v.z * v.z,
    ;
    assert(raw <= 12885295107) by (nonlinear_arith)
        requires
            raw <= 3 * ((fx::ONE + 1) as int) * ((fx::ONE + 1) as int),
            fx::ONE == 65536,
    ;
    fx::lemma_isqrt_spec_bounds(raw as nat);
    let l = len_spec(v);
    assert(l * l <= raw);
    assert(l <= 0x1_ffff) by (nonlinear_arith)
        requires
            l >= 0,
            l * l <= 12885295107int,
    ;
}

} // verus!
