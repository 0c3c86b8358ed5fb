//! Three-component fixed-point vectors: positions, directions and colors.

use vstd::prelude::*;
use crate::fx;

verus! {

#[derive(Clone, Copy, PartialEq, Eq, Structural, Debug)]
pub struct Vec3 {
    pub x: i64,
    pub y: i64,
    pub z: i64,
}

/// Raw squared length: the sum of the raw component products, carrying
/// scale 2^32 (so its square root carries scale 2^16 again).
pub open spec fn len_sq_raw(v: Vec3) -> int {
    v.x * v.x + v.y * v.y + v.z * v.z
}

/// Fixed-point length: the rounded-down square root of the raw squared
/// length.
pub open spec fn len_spec(v: Vec3) -> int {
    fx::isqrt_spec(len_sq_raw(v) as nat) as int
}

impl Vec3 {
    pub open spec fn bounded(self, b: int) -> bool {
        &&& -b <= self.x <= b
        &&& -b <= self.y <= b
        &&& -b <= self.z <= b
    }

    pub fn new(x: i64, y: i64, z: i64) -> (r: Self)
        ensures
            r == (Vec3 { x, y, z }),
    {
        Vec3 { x, y, z }
    }

    pub fn splat(v: i64) -> (r: Self)
        ensures
            r == (Vec3 { x: v, y: v, z: v }),
    {
        Vec3 { x: v, y: v, z: v }
    }

    pub fn zero() -> (r: Self)
        ensures
            r == (Vec3 { x: 0i64, y: 0i64, z: 0i64 }),
    {
        Vec3 { x: 0, y: 0, z: 0 }
    }

    /// Component selection by axis index: 0 is x, 1 is y, other is z.
    pub open spec fn axis_spec(self, i: int) -> i64 {
        if i == 0 {
            self.x
        } else if i == 1 {
            self.y
        } else {
            self.z
        }
    }

    pub fn axis(&self, i: usize) -> (r: i64)
        ensures
            r == self.axis_spec(i as int),
    {
        if i == 0 {
            self.x
        } else if i == 1 {
            self.y
        } else {
            self.z
        }
    }

    pub open spec fn add_spec(self, o: Vec3) -> Vec3 {
        Vec3 { x: (self.x + o.x) as i64, y: (self.y + o.y) as i64, z: (self.z + o.z) as i64 }
    }

    pub fn add(&self, o: &Vec3) -> (r: Vec3)
        requires
            i64::MIN <= self.x + o.x <= i64::MAX,
            i64::MIN <= self.y + o.y <= i64::MAX,
            i64::MIN <= self.z + o.z <= i64::MAX,
        ensures
            r == self.add_spec(*o),
            r.x == self.x + o.x && r.y == self.y + o.y && r.z == self.z + o.z,
    {
        Vec3 { x: self.x + o.x, y: self.y + o.y, z: self.z + o.z }
    }

    pub open spec fn sub_spec(self, o: Vec3) -> Vec3 {
        Vec3 { x: (self.x - o.x) as i64, y: (self.y - o.y) as i64, z: (self.z - o.z) as i64 }
    }

    pub fn sub(&self, o: &Vec3) -> (r: Vec3)
        requires
            i64::MIN <= self.x - o.x <= i64::MAX,
            i64::MIN <= self.y - o.y <= i64::MAX,
            i64::MIN <= self.z - o.z <= i64::MAX,
        ensures
            r == self.sub_spec(*o),
            r.x == self.x - o.x && r.y == self.y - o.y && r.z == self.z - o.z,
    {
        Vec3 { x: self.x - o.x, y: self.y - o.y, z: self.z - o.z }
    }

    pub open spec fn scale_spec(self, s: int) -> Vec3 {
        Vec3 {
            x: fx::mul_spec(self.x as int, s) as i64,
            y: fx::mul_spec(self.y as int, s) as i64,
            z: fx::mul_spec(self.z as int, s) as i64,
        }
    }

    /// Scale by a fixed-point scalar, each component rounded down.
    pub fn scale(&self, s: i64) -> (r: Vec3)
        requires
            i64::MIN <= fx::mul_spec(self.x as int, s as int) <= i64::MAX,
            i64::MIN <= fx::mul_spec(self.y as int, s as int) <= i64::MAX,
            i64::MIN <= fx::mul_spec(self.z as int, s as int) <= i64::MAX,
        ensures
            r == self.scale_spec(s as int),
    {
        Vec3 { x: fx::mul(self.x, s), y: fx::mul(self.y, s), z: fx::mul(self.z, s) }
    }

    pub open spec fn mul_comp_spec(self, o: Vec3) -> Vec3 {
        Vec3 {
            x: fx::mul_spec(self.x as int, o.x as int) as i64,
            y: fx::mul_spec(self.y as int, o.y as int) as i64,
            z: fx::mul_spec(self.z as int, o.z as int) as i64,
        }
    }

    /// Componentwise product: how an attenuation color filters radiance.
    pub fn mul_comp(&self, o: &Vec3) -> (r: Vec3)
        requires
            i64::MIN <= fx::mul_spec(self.x as int, o.x as int) <= i64::MAX,
            i64::MIN <= fx::mul_spec(self.y as int, o.y as int) <= i64::MAX,
            i64::MIN <= fx::mul_spec(self.z as int, o.z as int) <= i64::MAX,
        ensures
            r == self.mul_comp_spec(*o),
    {
        Vec3 { x: fx::mul(self.x, o.x), y: fx::mul(self.y, o.y), z: fx::mul(self.z, o.z) }
    }

    pub open spec fn neg_spec(self) -> Vec3 {
        Vec3 { x: (0 - self.x) as i64, y: (0 - self.y) as i64, z: (0 - self.z) as i64 }
    }

    pub fn neg(&self) -> (r: Vec3)
        requires
            self.x > i64::MIN,
            self.y > i64::MIN,
            self.z > i64::MIN,
        ensures
            r == self.neg_spec(),
    {
        Vec3 { x: -self.x, y: -self.y, z: -self.z }
    }

    pub open spec fn dot_spec(self, o: Vec3) -> int {
        (self.x * o.x + self.y * o.y + self.z * o.z) / (fx::ONE as int)
    }

    /// Fixed-point dot product; the three raw products are summed first
    /// and rounded down once.
    pub fn dot(&self, o: &Vec3) -> (r: i64)
        requires
            self.bounded(0x1000_0000_0000_0000),
            o.bounded(0x1000_0000_0000_0000),
            i64::MIN <= self.dot_spec(*o) <= i64::MAX,
        ensures
            r == self.dot_spec(*o),
    {
        proof {
            lemma_raw_product_bounds(*self, *o);
        }
        let raw: i128 = (self.x as i128) * (o.x as i128) + (self.y as i128) * (o.y as i128)
            + (self.z as i128) * (o.z as i128);
        let q: i128 = fx::floor_div(raw, fx::ONE as i128);
        q as i64
    }

    /// Raw squared length at scale 2^32; always non-negative.
    pub fn length_squared_raw(&self) -> (r: i128)
        requires
            self.bounded(0x1000_0000_0000_0000),
        ensures
            r == len_sq_raw(*self),
            0 <= r <= 0x3000_0000_0000_0000_0000_0000_0000_0000,
    {
        proof {
            lemma_raw_product_bounds(*self, *self);
            assert(self.x * self.x >= 0 && self.y * self.y >= 0 && self.z * self.z >= 0)
                by (nonlinear_arith);
        }
        (self.x as i128) * (self.x as i128) + (self.y as i128) * (self.y as i128)
            + (self.z as i128) * (self.z as i128)
    }

    /// Fixed-point length.
    pub fn length(&self) -> (r: i64)
        requires
            self.bounded(0x1000_0000_0000_0000),
        ensures
            r == len_spec(*self),
            r >= 0,
    {
        let raw: i128 = self.length_squared_raw();
        let s: u128 = fx::isqrt(raw as u128);
        proof {
            fx::lemma_isqrt_spec_bounds(raw as nat);
            let sq = fx::isqrt_spec(raw as nat);
            assert(sq < 0x8000_0000_0000_0000) by (nonlinear_arith)
                requires
                    sq * sq <= 0x3000_0000_0000_0000_0000_0000_0000_0000,
            ;
        }
        s as i64
    }
}

/// The raw (unscaled) dot product, carrying scale 2^32.
pub open spec fn raw_dot(a: Vec3, b: Vec3) -> int {
    a.x * b.x + a.y * b.y + a.z * b.z
}

/// Componentwise clamp into `[-b, b]`.
pub open spec fn clamp_band_spec(v: Vec3, b: int) -> Vec3 {
    Vec3 {
        x: if v.x < -b {
            (-b) as i64
        } else if v.x > b {
            b as i64
        } else {
            v.x
        },
        y: if v.y < -b {
            (-b) as i64
        } else if v.y > b {
            b as i64
        } else {
            v.y
        },
        z: if v.z < -b {
            (-b) as i64
        } else if v.z > b {
            b as i64
        } else {
            v.z
        },
    }
}

/// Bounds on a raw dot product of vectors within two coordinate bands.
pub proof fn lemma_raw_dot_bound(a: Vec3, b: Vec3, ba: int, bb: int)
    requires
        ba >= 0,
        bb >= 0,
        a.bounded(ba),
        b.bounded(bb),
    ensures
        -3 * ba * bb <= raw_dot(a, b) <= 3 * ba * bb,
{
    assert(-3 * ba * bb <= a.x * b.x + a.y * b.y + a.z * b.z <= 3 * ba * bb)
        by (nonlinear_arith)
        requires
            ba >= 0,
            bb >= 0,
            -ba <= a.x <= ba && -ba <= a.y <= ba && -ba <= a.z <= ba,
            -bb <= b.x <= bb && -bb <= b.y <= bb && -bb <= b.z <= bb,
    ;
}

pub open spec fn normalize_spec(v: Vec3) -> Vec3 {
    Vec3 {
        x: fx::div_spec(v.x as int, len_spec(v)) as i64,
        y: fx::div_spec(v.y as int, len_spec(v)) as i64,
        z: fx::div_spec(v.z as int, len_spec(v)) as i64,
    }
}

pub open spec fn cross_spec(a: Vec3, b: Vec3) -> Vec3 {
    Vec3 {
        x: (fx::mul_spec(a.y as int, b.z as int) - fx::mul_spec(a.z as int, b.y as int)) as i64,
        y: (fx::mul_spec(a.z as int, b.x as int) - fx::mul_spec(a.x as int, b.z as int)) as i64,
        z: (fx::mul_spec(a.x as int, b.y as int) - fx::mul_spec(a.y as int, b.x as int)) as i64,
    }
}

impl Vec3 {
    /// Scale to (approximately) unit length: each component becomes
    /// `c * ONE / length`, rounded down.
    pub fn normalize(&self) -> (r: Vec3)
        requires
            self.bounded(0x1000_0000_0000_0000),
            len_sq_raw(*self) >= 1,
        ensures
            r == normalize_spec(*self),
            r.bounded(fx::ONE + 1),
    {
        let l: i64 = self.length();
        proof {
            fx::lemma_isqrt_spec_bounds(len_sq_raw(*self) as nat);
            lemma_component_le_length(*self);
            assert(l >= 1);
            lemma_div_unit_bound(self.x as int, l as int);
            lemma_div_unit_bound(self.y as int, l as int);
            lemma_div_unit_bound(self.z as int, l as int);
        }
        Vec3 { x: fx::div(self.x, l), y: fx::div(self.y, l), z: fx::div(self.z, l) }
    }

    /// The raw (unscaled) dot product at scale 2^32, exact in `i128`.
    pub fn raw_dot_with(&self, o: &Vec3) -> (r: i128)
        requires
            self.bounded(0x1000_0000_0000_0000),
            o.bounded(0x1000_0000_0000_0000),
        ensures
            r == raw_dot(*self, *o),
    {
        proof {
            lemma_raw_product_bounds(*self, *o);
        }
        (self.x as i128) * (o.x as i128) + (self.y as i128) * (o.y as i128) + (self.z as i128)
            * (o.z as i128)
    }

    /// Clamp every component into `[-b, b]`.
    pub fn clamp_band(&self, b: i64) -> (r: Vec3)
        requires
            b >= 0,
        ensures
            r == clamp_band_spec(*self, b as int),
            r.bounded(b as int),
    {
        let cx: i64 = if self.x < -b {
            -b
        } else if self.x > b {
            b
        } else {
            self.x
        };
        let cy: i64 = if self.y < -b {
            -b
        } else if self.y > b {
            b
        } else {
            self.y
        };
        let cz: i64 = if self.z < -b {
            -b
        } else if self.z > b {
            b
        } else {
            self.z
        };
        Vec3 { x: cx, y: cy, z: cz }
    }

    /// The cross product, each of the six partial products rounded down.
    pub fn cross(&self, o: &Vec3) -> (r: Vec3)
        requires
            self.bounded(0x20_0000_0000),
            o.bounded(0x20_0000_0000),
        ensures
            r == cross_spec(*self, *o),
    {
        proof {
            lemma_cross_term_bounds(*self, *o);
        }
        Vec3 {
            x: fx::mul(self.y, o.z) - fx::mul(self.z, o.y),
            y: fx::mul(self.z, o.x) - fx::mul(self.x, o.z),
            z: fx::mul(self.x, o.y) - fx::mul(self.y, o.x),
        }
    }
}

/// Each component's magnitude is at most the rounded-down length when the
/// vector is not the zero vector.
proof fn lemma_component_le_length(v: Vec3)
    requires
        len_sq_raw(v) >= 1,
    ensures
        len_spec(v) >= 1,
        -len_spec(v) <= v.x <= len_spec(v),
        -len_spec(v) <= v.y <= len_spec(v),
        -len_spec(v) <= v.z <= len_spec(v),
{
    fx::lemma_isqrt_spec_bounds(len_sq_raw(v) as nat);
    let l = len_spec(v);
    assert(l * l <= len_sq_raw(v));
    assert(len_sq_raw(v) < (l + 1) * (l + 1));
    assert(l >= 1 && -l <= v.x <= l && -l <= v.y <= l && -l <= v.z <= l) by (nonlinear_arith)
        requires
            l >= 0,
            len_sq_raw(v) >= 1,
            len_sq_raw(v) == v.x * v.x + v.y * v.y + v.z * v.z,
            len_sq_raw(v) < (l + 1) * (l + 1),
    ;
}

/// Dividing a component by a length that bounds it keeps the quotient
/// within one unit of `ONE`.
proof fn lemma_div_unit_bound(x: int, l: int)
    requires
        l >= 1,
        -l <= x <= l,
    ensures
        -(fx::ONE + 1) <= fx::div_spec(x, l) <= fx::ONE + 1,
{
    let q = (x * (fx::ONE as int)) / l;
    assert(-l * (fx::ONE as int) <= x * (fx::ONE as int) <= l * (fx::ONE as int))
        by (nonlinear_arith)
        requires
            -l <= x <= l,
            l >= 1,
    ;
    vstd::arithmetic::div_mod::lemma_div_is_ordered(x * (fx::ONE as int), l * (fx::ONE as int), l);
    vstd::arithmetic::div_mod::lemma_div_is_ordered(-l * (fx::ONE as int), x * (fx::ONE as int), l);
    assert((l * (fx::ONE as int)) / l == fx::ONE) by (nonlinear_arith)
        requires
            l >= 1,
    ;
    assert((-l * (fx::ONE as int)) / l == -(fx::ONE as int)) by (nonlinear_arith)
        requires
            l >= 1,
    ;
}

/// The six partial products of a cross product stay within `i64` range
/// for coordinates within the band.
proof fn lemma_cross_term_bounds(a: Vec3, b: Vec3)
    requires
        a.bounded(0x20_0000_0000),
        b.bounded(0x20_0000_0000),
    ensures
        -0x400_0000_0000_0000 <= fx::mul_spec(a.y as int, b.z as int) <= 0x400_0000_0000_0000,
        -0x400_0000_0000_0000 <= fx::mul_spec(a.z as int, b.y as int) <= 0x400_0000_0000_0000,
        -0x400_0000_0000_0000 <= fx::mul_spec(a.z as int, b.x as int) <= 0x400_0000_0000_0000,
        -0x400_0000_0000_0000 <= fx::mul_spec(a.x as int, b.z as int) <= 0x400_0000_0000_0000,
        -0x400_0000_0000_0000 <= fx::mul_spec(a.x as int, b.y as int) <= 0x400_0000_0000_0000,
        -0x400_0000_0000_0000 <= fx::mul_spec(a.y as int, b.x as int) <= 0x400_0000_0000_0000,
{
    lemma_mul_div_band(a.y as int, b.z as int);
    lemma_mul_div_band(a.z as int, b.y as int);
    lemma_mul_div_band(a.z as int, b.x as int);
    lemma_mul_div_band(a.x as int, b.z as int);
    lemma_mul_div_band(a.x as int, b.y as int);
    lemma_mul_div_band(a.y as int, b.x as int);
}

/// One partial product within the band, after the fixed-point scaling.
proof fn lemma_mul_div_band(p: int, q: int)
    requires
        -0x20_0000_0000 <= p <= 0x20_0000_0000,
        -0x20_0000_0000 <= q <= 0x20_0000_0000,
    ensures
        -0x400_0000_0000_0000 <= fx::mul_spec(p, q) <= 0x400_0000_0000_0000,
{
    assert(-0x400_0000_0000_0000_0000 <= p * q <= 0x400_0000_0000_0000_0000)
        by (nonlinear_arith)
        requires
            -0x20_0000_0000 <= p <= 0x20_0000_0000,
            -0x20_0000_0000 <= q <= 0x20_0000_0000,
    ;
    vstd::arithmetic::div_mod::lemma_div_is_ordered(
        p * q,
        0x400_0000_0000_0000_0000,
        fx::ONE as int,
    );
    vstd::arithmetic::div_mod::lemma_div_is_ordered(
        -0x400_0000_0000_0000_0000,
        p * q,
        fx::ONE as int,
    );
    assert(0x400_0000_0000_0000_0000int / (fx::ONE as int) == 0x400_0000_0000_0000) by (nonlinear_arith);
    assert((-0x400_0000_0000_0000_0000int) / (fx::ONE as int) == -0x400_0000_0000_0000) by (nonlinear_arith);
}

/// A normalized direction has unit length within a small fixed-point
/// tolerance: its raw squared length differs from `ONE^2` by less than
/// a quarter of one percent, for any vector at least a quarter unit
/// long. (Exactly `ONE^2` is unreachable in general because every
/// component is rounded down.)
pub proof fn lemma_normalize_tolerance(v: Vec3)
    requires
        v.bounded(0x1000_0000_0000_0000),
        len_sq_raw(v) >= 0x1000_0000,
    ensures
        0x1_0000_0000 - 7 * 65536 <= len_sq_raw(normalize_spec(v)),
        len_sq_raw(normalize_spec(v)) <= 0x1_0000_0000 + 15 * 65536,
{
    let raw = len_sq_raw(v);
    fx::lemma_isqrt_spec_bounds(raw as nat);
    let l = len_spec(v);
    assert(l * l <= raw);
    assert(raw < (l + 1) * (l + 1));
    assert(l >= 16384) by (nonlinear_arith)
        requires
            raw >= 0x1000_0000,
            raw < (l + 1) * (l + 1),
            l >= 0,
    ;
    assert(-l <= v.x <= l && -l <= v.y <= l && -l <= v.z <= l) by (nonlinear_arith)
        requires
            raw == v.x * v.x + v.y * v.y + v.z * v.z,
            l * l <= raw,
            raw < (l + 1) * (l + 1),
            l >= 0,
    ;
    vstd::arithmetic::div_mod::lemma_fundamental_div_mod(v.x * 65536, l as int);
    vstd::arithmetic::div_mod::lemma_fundamental_div_mod(v.y * 65536, l as int);
    vstd::arithmetic::div_mod::lemma_fundamental_div_mod(v.z * 65536, l as int);
    vstd::arithmetic::div_mod::lemma_mod_bound(v.x * 65536, l as int);
    vstd::arithmetic::div_mod::lemma_mod_bound(v.y * 65536, l as int);
    vstd::arithmetic::div_mod::lemma_mod_bound(v.z * 65536, l as int);
    let nx = fx::div_spec(v.x as int, l);
    let ny = fx::div_spec(v.y as int, l);
    let nz = fx::div_spec(v.z as int, l);
    let rx = (v.x * 65536) % l;
    let ry = (v.y * 65536) % l;
    let rz = (v.z * 65536) % l;
    lemma_div_unit_bound(v.x as int, l);
    lemma_div_unit_bound(v.y as int, l);
    lemma_div_unit_bound(v.z as int, l);
    let s = nx * nx + ny * ny + nz * nz;
    assert(len_sq_raw(normalize_spec(v)) == s);
    // per-component square identities
    assert((v.x * 65536) * (v.x * 65536) == l * l * (nx * nx) + 2 * l * (nx * rx) + rx * rx
        && (v.x * 65536) * (v.x * 65536) == (v.x * v.x) * (65536 * 65536)) by (nonlinear_arith)
        requires
            v.x * 65536 == l * nx + rx,
    ;
    assert((v.y * 65536) * (v.y * 65536) == l * l * (ny * ny) + 2 * l * (ny * ry) + ry * ry
        && (v.y * 65536) * (v.y * 65536) == (v.y * v.y) * (65536 * 65536)) by (nonlinear_arith)
        requires
            v.y * 65536 == l * ny + ry,
    ;
    assert((v.z * 65536) * (v.z * 65536) == l * l * (nz * nz) + 2 * l * (nz * rz) + rz * rz
        && (v.z * 65536) * (v.z * 65536) == (v.z * v.z) * (65536 * 65536)) by (nonlinear_arith)
        requires
            v.z * 65536 == l * nz + rz,
    ;
    let t = nx * rx + ny * ry + nz * rz;
    let rr = rx * rx + ry * ry + rz * rz;
    assert(raw * (65536 * 65536) == l * l * s + 2 * l * t + rr) by (nonlinear_arith)
        requires
            raw == v.x * v.x + v.y * v.y + v.z * v.z,
            (v.x * v.x) * (65536 * 65536) == l * l * (nx * nx) + 2 * l * (nx * rx) + rx * rx,
            (v.y * v.y) * (65536 * 65536) == l * l * (ny * ny) + 2 * l * (ny * ry) + ry * ry,
            (v.z * v.z) * (65536 * 65536) == l * l * (nz * nz) + 2 * l * (nz * rz) + rz * rz,
            s == nx * nx + ny * ny + nz * nz,
            t == nx * rx + ny * ry + nz * rz,
            rr == rx * rx + ry * ry + rz * rz,
    ;
    // magnitude of the cross terms
    assert(-3 * 65537 * l <= t <= 3 * 65537 * l && 0 <= rr < 3 * (l * l)) by (nonlinear_arith)
        requires
            t == nx * rx + ny * ry + nz * rz,
            rr == rx * rx + ry * ry + rz * rz,
            -65537 <= nx <= 65537,
            -65537 <= ny <= 65537,
            -65537 <= nz <= 65537,
            0 <= rx < l,
            0 <= ry < l,
            0 <= rz < l,
            l >= 1,
    ;
    // lower end
    assert(-(6 * 65537) * (l * l) <= 2 * l * t && 2 * l * t <= (6 * 65537) * (l * l) && raw * (
    65536 * 65536) >= (l * l) * (65536 * 65536)) by (nonlinear_arith)
        requires
            -3 * 65537 * l <= t <= 3 * 65537 * l,
            l >= 1,
            l * l <= raw,
    ;
    assert(l * l * s >= (l * l) * (65536 * 65536) - (6 * 65537) * (l * l) - 3 * (l * l));
    assert((l * l) * (65536 * 65536) - (6 * 65537) * (l * l) - 3 * (l * l) == (l * l) * ((65536
        * 65536) - 6 * 65537 - 3)) by (nonlinear_arith);
    assert((l * l) * s >= (l * l) * ((65536 * 65536) - 6 * 65537 - 3)) by (nonlinear_arith)
        requires
            l * l * s >= (l * l) * ((65536 * 65536) - 6 * 65537 - 3),
    ;
    assert(s >= (65536 * 65536) - 6 * 65537 - 3) by (nonlinear_arith)
        requires
            (l * l) * s >= (l * l) * ((65536 * 65536) - 6 * 65537 - 3),
            l >= 1,
    ;
    // upper end
    assert(raw * (65536 * 65536) <= (l * l + 2 * l) * (65536 * 65536) && (2 * l) * (65536
        * 65536) <= (l * l) * 524288) by (nonlinear_arith)
        requires
            raw < (l + 1) * (l + 1),
            l >= 16384,
    ;
    assert((l * l + 2 * l) * (65536 * 65536) == (l * l) * (65536 * 65536) + (2 * l) * (65536
        * 65536)) by (nonlinear_arith);
    assert(l * l * s <= (l * l) * (65536 * 65536) + (l * l) * 524288 + (6 * 65537) * (l * l))
        by (nonlinear_arith)
        requires
            raw * (65536 * 65536) == l * l * s + 2 * l * t + rr,
            raw * (65536 * 65536) <= (l * l + 2 * l) * (65536 * 65536),
            (2 * l) * (65536 * 65536) <= (l * l) * 524288,
            -(6 * 65537) * (l * l) <= 2 * l * t,
            0 <= rr,
    ;
    assert((l * l) * (65536 * 65536) + (l * l) * 524288 + (6 * 65537) * (l * l) == (l * l) * ((
    65536 * 65536) + 524288 + 6 * 65537)) by (nonlinear_arith);
    assert((l * l) * s <= (l * l) * ((65536 * 65536) + 524288 + 6 * 65537))
        by (nonlinear_arith)
        requires
            l * l * s <= (l * l) * ((65536 * 65536) + 524288 + 6 * 65537),
    ;
    assert(s <= (65536 * 65536) + 524288 + 6 * 65537) by (nonlinear_arith)
        requires
            (l * l) * s <= (l * l) * ((65536 * 65536) + 524288 + 6 * 65537),
            l >= 1,
    ;
}

/// Componentwise products of two vectors within the coordinate band fit
/// comfortably in `i128`.
proof fn lemma_raw_product_bounds(a: Vec3, b: Vec3)
    requires
        a.bounded(0x1000_0000_0000_0000),
        b.bounded(0x1000_0000_0000_0000),
    ensures
        -0x1000_0000_0000_0000_0000_0000_0000_0000 <= a.x * b.x
            <= 0x1000_0000_0000_0000_0000_0000_0000_0000,
        -0x1000_0000_0000_0000_0000_0000_0000_0000 <= a.y * b.y
            <= 0x1000_0000_0000_0000_0000_0000_0000_0000,
        -0x1000_0000_0000_0000_0000_0000_0000_0000 <= a.z * b.z
            <= 0x1000_0000_0000_0000_0000_0000_0000_0000,
{
    assert(-0x1000_0000_0000_0000_0000_0000_0000_0000 <= a.x * b.x
        <= 0x1000_0000_0000_0000_0000_0000_0000_0000) by (nonlinear_arith)
        requires
            -0x1000_0000_0000_0000 <= a.x <= 0x1000_0000_0000_0000,
            -0x1000_0000_0000_0000 <= b.x <= 0x1000_0000_0000_0000,
    ;
    assert(-0x1000_0000_0000_0000_0000_0000_0000_0000 <= a.y * b.y
        <= 0x1000_0000_0000_0000_0000_0000_0000_0000) by (nonlinear_arith)
        requires
            -0x1000_0000_0000_0000 <= a.y <= 0x1000_0000_0000_0000,
            -0x1000_0000_0000_0000 <= b.y <= 0x1000_0000_0000_0000,
    ;
    assert(-0x1000_0000_0000_0000_0000_0000_0000_0000 <= a.z * b.z
        <= 0x1000_0000_0000_0000_0000_0000_0000_0000) by (nonlinear_arith)
        requires
            -0x1000_0000_0000_0000 <= a.z <= 0x1000_0000_0000_0000,
            -0x1000_0000_0000_0000 <= b.z <= 0x1000_0000_0000_0000,
    ;
}

} // verus!
