//! The volumetric density field: a dense lattice of optional density
//! samples over a bounding box, trilinear sampling, a Henyey-Greenstein
//! phase function, and the ray-marching transmittance integrator.

use vstd::prelude::*;
use crate::fx;
use crate::aabb::Aabb;
use crate::interval::Interval;
use crate::ray::{at_spec, Ray, COORD_MAX, MIN_DIR_SQ, T_MAX};
use crate::vec3::{clamp_band_spec, len_sq_raw, len_spec, normalize_spec, raw_dot, Vec3};

verus! {

/// A volumetric sample: how much light passed through the marched
/// segment, and how much was scattered into it.
#[derive(Clone, Copy, PartialEq, Eq, Structural, Debug)]
pub struct HitRecord {
    pub transparency: i64,
    pub resulted_color: Vec3,
}

/// The lattice never exceeds this many cells per axis.
pub const GRID_DIM_MAX: usize = 4096;

/// Transmittance below this threshold ends the march early.
pub const TRANS_EPS: i64 = 65;

/// Radiance accumulation saturates at this magnitude per channel.
pub const RAD_MAX: i64 = 0x1000_0000_0000;

/// `1 / (4 pi)` at fixed-point scale.
pub const INV_4PI: i64 = 5215;

pub struct VolumeGrid {
    pub bbox: Aabb,
    pub weights: Vec<Vec<Vec<Option<i64>>>>,
    pub shift: Vec3,
    pub light_dir: Vec3,
    pub light_col: Vec3,
    pub absorption: i64,
    pub scattering: i64,
    pub g: i64,
    pub step_size: i64,
}

/// The sample stored at one lattice cell, vacuum outside the lattice.
pub open spec fn cell_spec(g: VolumeGrid, x: int, y: int, z: int) -> Option<i64> {
    if 0 <= x < g.weights@.len() && 0 <= y < g.weights@[x]@.len() && 0 <= z
        < g.weights@[x]@[y]@.len() {
        g.weights@[x]@[y]@[z]
    } else {
        None
    }
}

/// Every cell is empty: the field is pure vacuum.
pub open spec fn is_vacuum(g: VolumeGrid) -> bool {
    forall|x: int, y: int, z: int| #[trigger] cell_spec(g, x, y, z) is None
}

impl VolumeGrid {
    /// The lattice is rectangular and bounded, every stored density is a
    /// unit-range scalar, the box and light parameters sit in their
    /// bands, and the march step is positive.
    pub open spec fn wf(self) -> bool {
        &&& self.bbox.wf()
        &&& self.bbox.min.bounded(crate::hittable::SCENE_MAX as int)
        &&& self.bbox.max.bounded(crate::hittable::SCENE_MAX as int)
        &&& 1 <= self.weights@.len() <= GRID_DIM_MAX
        &&& forall|x: int|
            0 <= x < self.weights@.len() ==> 1 <= #[trigger] self.weights@[x]@.len()
                <= GRID_DIM_MAX
        &&& forall|x: int, y: int|
            0 <= x < self.weights@.len() && 0 <= y < self.weights@[x]@.len() ==> 1
                <= (#[trigger] self.weights@[x]@[y]@).len() <= GRID_DIM_MAX
        &&& forall|x: int, y: int, z: int|
            (#[trigger] cell_spec(self, x, y, z)) matches Some(w) ==> 0 <= w <= fx::ONE
        &&& self.shift.bounded(crate::hittable::SCENE_MAX as int)
        &&& self.light_dir.bounded(4 * fx::ONE)
        &&& len_sq_raw(self.light_dir) >= MIN_DIR_SQ
        &&& self.light_col.bounded(4 * fx::ONE)
        &&& 0 <= self.light_col.x && 0 <= self.light_col.y && 0 <= self.light_col.z
        &&& 0 <= self.absorption <= fx::ONE
        &&& 0 <= self.scattering <= fx::ONE
        &&& -fx::ONE < self.g < fx::ONE
        &&& 1 <= self.step_size <= 16 * fx::ONE
    }

    /// The lattice cell, by integer coordinates; out of range is vacuum.
    fn get_weight(&self, xi: i64, yi: i64, zi: i64) -> (r: Option<i64>)
        requires
            self.wf(),
        ensures
            r == cell_spec(*self, xi as int, yi as int, zi as int),
            r matches Some(w) ==> 0 <= w <= fx::ONE,
    {
        if xi < 0 || xi >= self.weights.len() as i64 {
            return None;
        }
        let row = &self.weights[xi as usize];
        if yi < 0 || yi >= row.len() as i64 {
            return None;
        }
        let col = &row[yi as usize];
        if zi < 0 || zi >= col.len() as i64 {
            return None;
        }
        col[zi as usize]
    }
}

/// One corner's contribution to the trilinear sample: the product of
/// the three tent weights and the stored density, or nothing.
pub open spec fn corner_term_spec(
    g: VolumeGrid,
    xi: int,
    yi: int,
    zi: int,
    wx: int,
    wy: int,
    wz: int,
) -> int {
    match cell_spec(g, xi, yi, zi) {
        Some(cw) => fx::mul_spec(fx::mul_spec(fx::mul_spec(wx, wy), wz), cw as int),
        None => 0,
    }
}

/// The mirror of trilinear sampling: gather the eight surrounding
/// cells, weight each by the product of per-axis tent weights, and
/// treat a non-positive sum as vacuum.
pub open spec fn interp_spec(g: VolumeGrid, pos: Vec3) -> Option<i64> {
    let pl = pos.sub_spec(g.bbox.min).sub_spec(
        Vec3 { x: 32768i64, y: 32768i64, z: 32768i64 },
    );
    let xi = pl.x as int / (fx::ONE as int);
    let yi = pl.y as int / (fx::ONE as int);
    let zi = pl.z as int / (fx::ONE as int);
    let fxr = pl.x - xi * (fx::ONE as int);
    let fyr = pl.y - yi * (fx::ONE as int);
    let fzr = pl.z - zi * (fx::ONE as int);
    let sum = corner_term_spec(g, xi, yi, zi, fx::ONE - fxr, fx::ONE - fyr, fx::ONE - fzr)
        + corner_term_spec(g, xi, yi, zi + 1, fx::ONE - fxr, fx::ONE - fyr, fzr)
        + corner_term_spec(g, xi, yi + 1, zi, fx::ONE - fxr, fyr, fx::ONE - fzr)
        + corner_term_spec(g, xi, yi + 1, zi + 1, fx::ONE - fxr, fyr, fzr)
        + corner_term_spec(g, xi + 1, yi, zi, fxr, fx::ONE - fyr, fx::ONE - fzr)
        + corner_term_spec(g, xi + 1, yi, zi + 1, fxr, fx::ONE - fyr, fzr)
        + corner_term_spec(g, xi + 1, yi + 1, zi, fxr, fyr, fx::ONE - fzr)
        + corner_term_spec(g, xi + 1, yi + 1, zi + 1, fxr, fyr, fzr);
    if sum > 0 {
        Some(sum as i64)
    } else {
        None
    }
}

/// A fixed-point product of two unit-range scalars stays in unit range.
pub proof fn lemma_unit_mul(a: int, b: int)
    requires
        0 <= a <= fx::ONE,
        0 <= b <= fx::ONE,
    ensures
        0 <= fx::mul_spec(a, b) <= fx::ONE,
        fx::mul_spec(a, b) <= a,
        fx::mul_spec(a, b) <= b,
{
    assert(0 <= a * b && a * b <= a * (fx::ONE as int) && a * b <= b * (fx::ONE as int))
        by (nonlinear_arith)
        requires
            0 <= a <= fx::ONE,
            0 <= b <= fx::ONE,
    ;
    fx::lemma_floor_div_range(a * b, 0, a * (fx::ONE as int), fx::ONE as int);
    fx::lemma_floor_div_range(a * b, 0, b * (fx::ONE as int), fx::ONE as int);
    vstd::arithmetic::div_mod::lemma_div_by_multiple(a, fx::ONE as int);
    vstd::arithmetic::div_mod::lemma_div_by_multiple(b, fx::ONE as int);
    assert(0int / 65536 == 0) by (nonlinear_arith);
}

/// A scaled product against a non-negative factor of bounded size.
pub proof fn lemma_scaled_mul(a: int, b: int, ca: int, cb: int)
    requires
        0 <= a <= ca,
        0 <= b <= cb,
    ensures
        0 <= fx::mul_spec(a, b),
        fx::mul_spec(a, b) * (fx::ONE as int) <= ca * cb,
{
    assert(0 <= a * b <= ca * cb) by (nonlinear_arith)
        requires
            0 <= a <= ca,
            0 <= b <= cb,
    ;
    fx::lemma_floor_div_range(a * b, 0, ca * cb, fx::ONE as int);
    vstd::arithmetic::div_mod::lemma_fundamental_div_mod(a * b, fx::ONE as int);
    vstd::arithmetic::div_mod::lemma_mod_bound(a * b, fx::ONE as int);
    assert(0int / 65536 == 0) by (nonlinear_arith);
    let q = (a * b) / (fx::ONE as int);
    assert(q * (fx::ONE as int) <= a * b) by (nonlinear_arith)
        requires
            a * b == (fx::ONE as int) * q + (a * b) % (fx::ONE as int),
            0 <= (a * b) % (fx::ONE as int),
    ;
}

impl VolumeGrid {
    /// Trilinear density at a world position: the eight surrounding
    /// cells weighted by per-axis tent functions; a non-positive sum is
    /// vacuum.
    pub fn get_interpolated_weight(&self, pos: Vec3) -> (r: Option<i64>)
        requires
            self.wf(),
            pos.bounded(0x40_0000_0000),
        ensures
            r == interp_spec(*self, pos),
            r matches Some(w) ==> 0 < w <= 8 * fx::ONE,
            is_vacuum(*self) ==> r is None,
    {
        let pl: Vec3 = pos.sub(&self.bbox.min).sub(&Vec3 { x: 32768, y: 32768, z: 32768 });
        let xi: i64 = fx::floor_div(pl.x as i128, fx::ONE as i128) as i64;
        let yi: i64 = fx::floor_div(pl.y as i128, fx::ONE as i128) as i64;
        let zi: i64 = fx::floor_div(pl.z as i128, fx::ONE as i128) as i64;
        proof {
            lemma_frac_range(pl.x as int, xi as int);
            lemma_frac_range(pl.y as int, yi as int);
            lemma_frac_range(pl.z as int, zi as int);
        }
        let fxr: i64 = pl.x - xi * fx::ONE;
        let fyr: i64 = pl.y - yi * fx::ONE;
        let fzr: i64 = pl.z - zi * fx::ONE;
        let t0: i64 = self.corner_term(xi, yi, zi, fx::ONE - fxr, fx::ONE - fyr, fx::ONE - fzr);
        let t1: i64 = self.corner_term(xi, yi, zi + 1, fx::ONE - fxr, fx::ONE - fyr, fzr);
        let t2: i64 = self.corner_term(xi, yi + 1, zi, fx::ONE - fxr, fyr, fx::ONE - fzr);
        let t3: i64 = self.corner_term(xi, yi + 1, zi + 1, fx::ONE - fxr, fyr, fzr);
        let t4: i64 = self.corner_term(xi + 1, yi, zi, fxr, fx::ONE - fyr, fx::ONE - fzr);
        let t5: i64 = self.corner_term(xi + 1, yi, zi + 1, fxr, fx::ONE - fyr, fzr);
        let t6: i64 = self.corner_term(xi + 1, yi + 1, zi, fxr, fyr, fx::ONE - fzr);
        let t7: i64 = self.corner_term(xi + 1, yi + 1, zi + 1, fxr, fyr, fzr);
        let sum: i64 = t0 + t1 + t2 + t3 + t4 + t5 + t6 + t7;
        if sum > 0 {
            Some(sum)
        } else {
            None
        }
    }

    /// One corner's weighted contribution.
    fn corner_term(&self, xi: i64, yi: i64, zi: i64, wx: i64, wy: i64, wz: i64) -> (r: i64)
        requires
            self.wf(),
            0 <= wx <= fx::ONE,
            0 <= wy <= fx::ONE,
            0 <= wz <= fx::ONE,
            xi < i64::MAX,
            yi < i64::MAX,
            zi < i64::MAX,
        ensures
            r == corner_term_spec(
                *self,
                xi as int,
                yi as int,
                zi as int,
                wx as int,
                wy as int,
                wz as int,
            ),
            0 <= r <= fx::ONE,
            cell_spec(*self, xi as int, yi as int, zi as int) is None ==> r == 0,
    {
        match self.get_weight(xi, yi, zi) {
            None => 0,
            Some(cw) => {
                proof {
                    lemma_unit_mul(wx as int, wy as int);
                    lemma_unit_mul(fx::mul_spec(wx as int, wy as int), wz as int);
                    lemma_unit_mul(
                        fx::mul_spec(fx::mul_spec(wx as int, wy as int), wz as int),
                        cw as int,
                    );
                }
                fx::mul(fx::mul(fx::mul(wx, wy), wz), cw)
            },
        }
    }

    /// The Henyey-Greenstein phase function at a (clamped) scattering
    /// cosine; a degenerate denominator yields zero.
    pub fn phase(&self, cos_theta: i64) -> (r: i64)
        requires
            self.wf(),
            -fx::ONE <= cos_theta <= fx::ONE,
        ensures
            r == phase_spec(*self, cos_theta as int),
            0 <= r <= 0x2000_0000_0000,
    {
        proof {
            lemma_phase_bounds(self.g as int, cos_theta as int);
        }
        let g2: i64 = fx::mul(self.g, self.g);
        let denom: i64 = fx::ONE + g2 - 2 * fx::mul(self.g, cos_theta);
        if denom <= 0 {
            return 0;
        }
        let sq: i64 = fx::sqrt_fx(denom);
        let divisor: i64 = fx::mul(denom, sq);
        if divisor <= 0 {
            return 0;
        }
        let num: i64 = fx::mul(INV_4PI, fx::ONE - g2);
        fx::div(num, divisor)
    }
}

/// The mirror of `phase`.
pub open spec fn phase_spec(g: VolumeGrid, cos_theta: int) -> int {
    let g2 = fx::mul_spec(g.g as int, g.g as int);
    let denom = (fx::ONE as int) + g2 - 2 * fx::mul_spec(g.g as int, cos_theta);
    if denom <= 0 {
        0
    } else {
        let sq = fx::sqrt_fx_spec(denom);
        let divisor = fx::mul_spec(denom, sq);
        if divisor <= 0 {
            0
        } else {
            fx::div_spec(fx::mul_spec(INV_4PI as int, (fx::ONE as int) - g2), divisor)
        }
    }
}

/// Away from the ends of the anisotropy range the phase function is
/// strictly positive, as the formula demands on its open interval: a
/// sixteenth of a unit of margin keeps the rounded denominator and
/// numerator from degenerating.
pub proof fn lemma_phase_positive(vg: VolumeGrid, cos_theta: int)
    requires
        -fx::ONE + 0x1000 <= vg.g && vg.g <= fx::ONE - 0x1000,
        -fx::ONE <= cos_theta <= fx::ONE,
    ensures
        phase_spec(vg, cos_theta) >= 1,
{
    let gg = vg.g as int;
    let g2 = fx::mul_spec(gg, gg);
    let mg = fx::mul_spec(gg, cos_theta);
    vstd::arithmetic::div_mod::lemma_fundamental_div_mod(gg * gg, fx::ONE as int);
    vstd::arithmetic::div_mod::lemma_mod_bound(gg * gg, fx::ONE as int);
    vstd::arithmetic::div_mod::lemma_fundamental_div_mod(gg * cos_theta, fx::ONE as int);
    vstd::arithmetic::div_mod::lemma_mod_bound(gg * cos_theta, fx::ONE as int);
    let r2 = (gg * gg) % (fx::ONE as int);
    let rm = (gg * cos_theta) % (fx::ONE as int);
    // the denominator, at raw scale, dominates the squared margin
    assert((fx::ONE as int) * (fx::ONE as int) + gg * gg - 2 * (gg * cos_theta)
        >= 0x1000int * 0x1000) by (nonlinear_arith)
        requires
            -(fx::ONE as int) + 0x1000 <= gg <= (fx::ONE as int) - 0x1000,
            -(fx::ONE as int) <= cos_theta <= fx::ONE as int,
            fx::ONE == 65536,
    ;
    let denom = (fx::ONE as int) + g2 - 2 * mg;
    assert(denom * (fx::ONE as int) >= 0x1000int * 0x1000 - 2 * (fx::ONE as int))
        by (nonlinear_arith)
        requires
            gg * gg == (fx::ONE as int) * g2 + r2,
            gg * cos_theta == (fx::ONE as int) * mg + rm,
            0 <= r2 < fx::ONE,
            0 <= rm < fx::ONE,
            denom == (fx::ONE as int) + g2 - 2 * mg,
            (fx::ONE as int) * (fx::ONE as int) + gg * gg - 2 * (gg * cos_theta) >= 0x1000int
                * 0x1000,
            fx::ONE == 65536,
    ;
    assert(denom >= 253) by (nonlinear_arith)
        requires
            denom * (fx::ONE as int) >= 0x1000int * 0x1000 - 2 * (fx::ONE as int),
            fx::ONE == 65536,
    ;
    // the denominator is also small: the square is a unit scalar and
    // the mixed term at most one unit either way
    assert(0 <= gg * gg <= (fx::ONE as int) * (fx::ONE as int)
        && -(fx::ONE as int) * (fx::ONE as int) <= gg * cos_theta <= (fx::ONE as int) * (
    fx::ONE as int)) by (nonlinear_arith)
        requires
            -(fx::ONE as int) <= gg <= fx::ONE as int,
            -(fx::ONE as int) <= cos_theta <= fx::ONE as int,
    ;
    fx::lemma_floor_div_range(
        gg * gg,
        0,
        (fx::ONE as int) * (fx::ONE as int),
        fx::ONE as int,
    );
    fx::lemma_floor_div_range(
        gg * cos_theta,
        -(fx::ONE as int) * (fx::ONE as int),
        (fx::ONE as int) * (fx::ONE as int),
        fx::ONE as int,
    );
    assert(((fx::ONE as int) * (fx::ONE as int)) / (fx::ONE as int) == fx::ONE
        && (-(fx::ONE as int) * (fx::ONE as int)) / (fx::ONE as int) == -(fx::ONE as int)
        && 0int / 65536 == 0) by (nonlinear_arith);
    assert(denom <= 4 * fx::ONE);
    // the square root of the denominator sits between the margin root
    // and two units
    fx::lemma_isqrt_spec_bounds((denom * (fx::ONE as int)) as nat);
    let sq = fx::sqrt_fx_spec(denom);
    assert(denom * (fx::ONE as int) >= 253int * 65536 && denom * (fx::ONE as int) <= (4
        * 65536int) * 65536) by (nonlinear_arith)
        requires
            253 <= denom <= 4 * 65536,
            fx::ONE == 65536,
    ;
    assert((sq + 1) * (sq + 1) > denom * (fx::ONE as int));
    assert(sq >= 4071) by (nonlinear_arith)
        requires
            (sq + 1) * (sq + 1) > 253int * 65536,
            sq >= 0,
    ;
    assert(sq <= 0x2_0000) by (nonlinear_arith)
        requires
            sq * sq <= (4 * 65536int) * 65536,
            sq >= 0,
    ;
    // hence the divisor is a small positive scalar
    let divisor = fx::mul_spec(denom, sq);
    assert(253int * 4071 <= denom * sq <= (4 * 65536int) * 0x2_0000) by (nonlinear_arith)
        requires
            253 <= denom <= 4 * 65536,
            4071 <= sq <= 0x2_0000,
    ;
    fx::lemma_floor_div_range(
        denom * sq,
        253int * 4071,
        (4 * 65536int) * 0x2_0000,
        fx::ONE as int,
    );
    assert((253int * 4071) / 65536 == 15 && ((4 * 65536int) * 0x2_0000) / 65536 == 0x8_0000)
        by (nonlinear_arith);
    // the numerator keeps at least the squared margin's worth of value
    assert(g2 <= 57600) by {
        assert(gg * gg <= 61440int * 61440) by (nonlinear_arith)
            requires
                -61440 <= gg <= 61440,
        ;
        fx::lemma_floor_div_range(gg * gg, 0, 61440int * 61440, fx::ONE as int);
        assert((61440int * 61440) / 65536 == 57600) by (nonlinear_arith);
    }
    let num = fx::mul_spec(INV_4PI as int, (fx::ONE as int) - g2);
    assert(5215int * 7936 <= (INV_4PI as int) * ((fx::ONE as int) - g2)) by (nonlinear_arith)
        requires
            g2 <= 57600,
            INV_4PI == 5215,
            fx::ONE == 65536,
    ;
    assert((INV_4PI as int) * ((fx::ONE as int) - g2) <= 5215int * 65536) by (nonlinear_arith)
        requires
            0 <= g2,
            INV_4PI == 5215,
            fx::ONE == 65536,
    ;
    fx::lemma_floor_div_range(
        (INV_4PI as int) * ((fx::ONE as int) - g2),
        5215int * 7936,
        5215int * 65536,
        fx::ONE as int,
    );
    assert((5215int * 7936) / 65536 == 631) by (nonlinear_arith);
    // dividing a numerator of at least 631 by a divisor of at most
    // 0x8_0000 keeps the result strictly positive
    assert(num * (fx::ONE as int) >= 631int * 65536) by (nonlinear_arith)
        requires
            num >= 631,
            fx::ONE == 65536,
    ;
    vstd::arithmetic::div_mod::lemma_div_is_ordered(
        631int * 65536,
        num * (fx::ONE as int),
        divisor,
    );
    vstd::arithmetic::div_mod::lemma_div_is_ordered_by_denominator(
        631int * 65536,
        divisor,
        0x8_0000,
    );
    assert((631int * 65536) / 0x8_0000 == 78) by (nonlinear_arith);
}

/// All quantities inside the phase evaluation stay small, and the
/// result is non-negative and bounded.
proof fn lemma_phase_bounds(g: int, cos_theta: int)
    requires
        -fx::ONE < g < fx::ONE,
        -fx::ONE <= cos_theta <= fx::ONE,
    ensures
        0 <= fx::mul_spec(g, g) <= fx::ONE,
        -(fx::ONE as int) - 1 <= fx::mul_spec(g, cos_theta) <= fx::ONE,
        ({
            let g2 = fx::mul_spec(g, g);
            let denom = (fx::ONE as int) + g2 - 2 * fx::mul_spec(g, cos_theta);
            denom > 0 ==> {
                &&& 0 <= fx::sqrt_fx_spec(denom) <= 0x4_0000
                &&& 0 <= fx::mul_spec(denom, fx::sqrt_fx_spec(denom)) <= 0x10_0000_0000
                &&& (fx::mul_spec(denom, fx::sqrt_fx_spec(denom)) > 0 ==> 0 <= fx::div_spec(
                    fx::mul_spec(INV_4PI as int, (fx::ONE as int) - fx::mul_spec(g, g)),
                    fx::mul_spec(denom, fx::sqrt_fx_spec(denom)),
                ) <= 0x2000_0000_0000)
            }
        }),
        0 <= fx::mul_spec(INV_4PI as int, (fx::ONE as int) - fx::mul_spec(g, g)) <= INV_4PI,
{
    assert(0 <= g * g <= (fx::ONE as int) * (fx::ONE as int) && -(fx::ONE as int) * (
    fx::ONE as int) <= g * cos_theta <= (fx::ONE as int) * (fx::ONE as int)) by (nonlinear_arith)
        requires
            -fx::ONE < g < fx::ONE,
            -fx::ONE <= cos_theta <= fx::ONE,
    ;
    fx::lemma_floor_div_range(
        g * g,
        0,
        (fx::ONE as int) * (fx::ONE as int),
        fx::ONE as int,
    );
    fx::lemma_floor_div_range(
        g * cos_theta,
        -(fx::ONE as int) * (fx::ONE as int),
        (fx::ONE as int) * (fx::ONE as int),
        fx::ONE as int,
    );
    assert(((fx::ONE as int) * (fx::ONE as int)) / (fx::ONE as int) == fx::ONE
        && (-(fx::ONE as int) * (fx::ONE as int)) / (fx::ONE as int) == -(fx::ONE as int)
        && 0int / 65536 == 0) by (nonlinear_arith);
    let g2 = fx::mul_spec(g, g);
    let denom = (fx::ONE as int) + g2 - 2 * fx::mul_spec(g, cos_theta);
    lemma_unit_mul(INV_4PI as int, (fx::ONE as int) - g2);
    if denom > 0 {
        // denom <= 4 * ONE + 2, so its square root is below four units
        assert(denom <= 4 * (fx::ONE as int) + 2);
        fx::lemma_isqrt_spec_bounds((denom * (fx::ONE as int)) as nat);
        let sq = fx::sqrt_fx_spec(denom);
        assert(sq * sq <= denom * (fx::ONE as int));
        assert(denom * (fx::ONE as int) <= (4 * (fx::ONE as int) + 2) * (fx::ONE as int))
            by (nonlinear_arith)
            requires
                0 < denom <= 4 * (fx::ONE as int) + 2,
        ;
        assert(sq <= 0x4_0000) by (nonlinear_arith)
            requires
                sq >= 0,
                sq * sq <= (4 * 65536int + 2) * 65536,
        ;
        lemma_scaled_mul(denom, sq, 4 * (fx::ONE as int) + 2, 0x4_0000);
        let divisor = fx::mul_spec(denom, sq);
        assert(divisor * (fx::ONE as int) <= (4 * 65536int + 2) * 0x4_0000);
        assert(divisor <= 0x10_0000_0000) by (nonlinear_arith)
            requires
                divisor * 65536int <= (4 * 65536int + 2) * 0x4_0000,
        ;
        if divisor > 0 {
            let num = fx::mul_spec(INV_4PI as int, (fx::ONE as int) - g2);
            fx::lemma_div_mag_bound(num * (fx::ONE as int), divisor, INV_4PI * (fx::ONE as int));
            assert(0 <= num * (fx::ONE as int) <= INV_4PI * (fx::ONE as int))
                by (nonlinear_arith)
                requires
                    0 <= num <= INV_4PI,
            ;
            assert(0 <= fx::div_spec(num, divisor)) by {
                fx::lemma_floor_div_range(num * (fx::ONE as int), 0, INV_4PI * (fx::ONE as int), divisor);
                assert(0int / divisor == 0) by (nonlinear_arith)
                    requires
                        divisor > 0,
                ;
            }
            assert(INV_4PI * (fx::ONE as int) <= 0x2000_0000_0000int) by (nonlinear_arith);
        }
    }
}

/// The scattering cosine between two directions, clamped into the unit
/// range; degenerate lengths yield zero.
pub open spec fn cos_between_spec(a: Vec3, b: Vec3) -> int {
    let la = len_spec(a);
    let lb = len_spec(b);
    if la <= 0 || lb <= 0 {
        0
    } else {
        let den = fx::mul_spec(la, lb);
        if den <= 0 {
            0
        } else {
            let q = fx::div_spec(a.dot_spec(b), den);
            if q < -fx::ONE {
                -(fx::ONE as int)
            } else if q > fx::ONE {
                fx::ONE as int
            } else {
                q
            }
        }
    }
}

/// The clamped cosine between two bounded directions.
pub fn cos_between(a: &Vec3, b: &Vec3) -> (r: i64)
    requires
        a.bounded(2 * fx::ONE),
        b.bounded(4 * fx::ONE),
    ensures
        r == cos_between_spec(*a, *b),
        -fx::ONE <= r <= fx::ONE,
{
    let la: i64 = a.length();
    let lb: i64 = b.length();
    if la <= 0 || lb <= 0 {
        return 0;
    }
    proof {
        crate::vec3::lemma_raw_dot_bound(*a, *b, 2 * fx::ONE, 4 * fx::ONE);
        crate::vec3::lemma_raw_dot_bound(*a, *a, 2 * fx::ONE, 2 * fx::ONE);
        crate::vec3::lemma_raw_dot_bound(*b, *b, 4 * fx::ONE, 4 * fx::ONE);
        let na = len_sq_raw(*a);
        let nb = len_sq_raw(*b);
        assert(na >= 0 && nb >= 0) by (nonlinear_arith)
            requires
                na == a.x * a.x + a.y * a.y + a.z * a.z,
                nb == b.x * b.x + b.y * b.y + b.z * b.z,
        ;
        fx::lemma_isqrt_spec_bounds(na as nat);
        fx::lemma_isqrt_spec_bounds(nb as nat);
        assert((la as int) * (la as int) <= na);
        assert((lb as int) * (lb as int) <= nb);
        assert(la as int <= 0x4_0000) by (nonlinear_arith)
            requires
                la as int >= 1,
                (la as int) * (la as int) <= 3 * (2 * 65536int) * (2 * 65536int),
        ;
        assert(lb as int <= 0x8_0000) by (nonlinear_arith)
            requires
                lb as int >= 1,
                (lb as int) * (lb as int) <= 3 * (4 * 65536int) * (4 * 65536int),
        ;
        fx::lemma_floor_div_range(
            raw_dot(*a, *b),
            -3 * (2 * (fx::ONE as int)) * (4 * (fx::ONE as int)),
            3 * (2 * (fx::ONE as int)) * (4 * (fx::ONE as int)),
            fx::ONE as int,
        );
        assert((3 * (2 * 65536int) * (4 * 65536int)) / 65536int == 24 * 65536
            && (-3 * (2 * 65536int) * (4 * 65536int)) / 65536int == -24 * 65536)
            by (nonlinear_arith);
        lemma_scaled_mul(la as int, lb as int, 0x4_0000, 0x8_0000);
    }
    let d: i64 = a.dot(b);
    let den: i64 = fx::mul(la, lb);
    if den <= 0 {
        return 0;
    }
    proof {
        fx::lemma_div_mag_bound(d as int * (fx::ONE as int), den as int, 24int * 65536 * 65536);
        assert(-24int * 65536 * 65536 <= d as int * (fx::ONE as int) <= 24int * 65536 * 65536)
            by (nonlinear_arith)
            requires
                -24 * 65536 <= d as int <= 24 * 65536,
        ;
    }
    let q: i64 = fx::div(d, den);
    if q < -fx::ONE {
        -fx::ONE
    } else if q > fx::ONE {
        fx::ONE
    } else {
        q
    }
}

/// One channel of a march step's radiance contribution: the light
/// color scaled in turn by each factor of the scattering estimate.
pub open spec fn scatter_chan_spec(
    c: int,
    trans: int,
    light_att: int,
    step: int,
    density: int,
    ph: int,
    scat: int,
) -> int {
    fx::mul_spec(
        fx::mul_spec(
            fx::mul_spec(fx::mul_spec(fx::mul_spec(fx::mul_spec(c, trans), light_att), step), density),
            ph,
        ),
        scat,
    )
}

/// The mirror of one march step's radiance contribution.
pub open spec fn scatter_term_spec(
    g: VolumeGrid,
    trans: int,
    light_att: int,
    density: int,
    ph: int,
) -> Vec3 {
    Vec3 {
        x: scatter_chan_spec(
            g.light_col.x as int,
            trans,
            light_att,
            g.step_size as int,
            density,
            ph,
            g.scattering as int,
        ) as i64,
        y: scatter_chan_spec(
            g.light_col.y as int,
            trans,
            light_att,
            g.step_size as int,
            density,
            ph,
            g.scattering as int,
        ) as i64,
        z: scatter_chan_spec(
            g.light_col.z as int,
            trans,
            light_att,
            g.step_size as int,
            density,
            ph,
            g.scattering as int,
        ) as i64,
    }
}

/// Saturating vector addition into a symmetric band.
pub open spec fn add_sat_spec(a: Vec3, b: Vec3, band: int) -> Vec3 {
    Vec3 {
        x: (if a.x + b.x < -band {
            -band
        } else if a.x + b.x > band {
            band
        } else {
            a.x + b.x
        }) as i64,
        y: (if a.y + b.y < -band {
            -band
        } else if a.y + b.y > band {
            band
        } else {
            a.y + b.y
        }) as i64,
        z: (if a.z + b.z < -band {
            -band
        } else if a.z + b.z > band {
            band
        } else {
            a.z + b.z
        }) as i64,
    }
}

/// The mirror of the inner march: one fixed step per recursion, the
/// transmittance multiplied by the step's Beer-Lambert factor, the
/// in-scattered radiance accumulated with saturation, and an early
/// exit once the transmittance underflows.
pub open spec fn march_spec(
    g: VolumeGrid,
    ray: Ray,
    t0: int,
    t1: int,
    ns: nat,
    n: nat,
    trans: int,
    res: Vec3,
    depth: u32,
) -> (int, Vec3)
    decreases depth, 0int, ns - n,
{
    if n >= ns || trans <= TRANS_EPS || depth == 0 {
        (trans, res)
    } else {
        let mid = t0 + fx::mul_spec(g.step_size as int, n as int * 65536 + 32768);
        let t = if t1 <= mid {
            t1
        } else {
            mid
        };
        let pos = at_spec(ray, t);
        match interp_spec(g, pos) {
            None => march_spec(g, ray, t0, t1, ns, n + 1, trans, res, depth),
            Some(den) => {
                let arg = fx::mul_spec(
                    fx::mul_spec(g.step_size as int, den as int),
                    fx::mul_spec(g.scattering as int, g.absorption as int),
                );
                let trans2 = fx::mul_spec(trans, fx::exp_neg_spec(arg));
                let lray = Ray {
                    origin: clamp_band_spec(pos, COORD_MAX as int),
                    direction: normalize_spec(g.light_dir),
                };
                match grid_color_spec(g, lray, (depth - 1) as u32) {
                    None => march_spec(g, ray, t0, t1, ns, n + 1, trans2, res, depth),
                    Some(lrec) => {
                        let cos = cos_between_spec(ray.direction, g.light_dir);
                        let ph = phase_spec(g, cos);
                        let scat_term = scatter_term_spec(
                            g,
                            trans2,
                            lrec.transparency as int,
                            den as int,
                            ph,
                        );
                        let res2 = add_sat_spec(res, scat_term, RAD_MAX as int);
                        march_spec(g, ray, t0, t1, ns, n + 1, trans2, res2, depth)
                    },
                }
            },
        }
    }
}

/// The mirror of `VolumeGrid::get_color`: intersect the box over the
/// forward window, march the interior in fixed steps, and report the
/// surviving transmittance with the accumulated in-scattered radiance.
pub open spec fn grid_color_spec(g: VolumeGrid, ray: Ray, depth: u32) -> Option<HitRecord>
    decreases depth, 1int, 0int,
{
    if depth == 0 {
        None
    } else {
        match crate::aabb::hit_spec(
            g.bbox,
            ray,
            Interval { min: 0, max: crate::interval::INF },
        ) {
            None => None,
            Some(w) => {
                let t0 = w.min as int;
                let t1 = if w.max <= T_MAX {
                    w.max as int
                } else {
                    T_MAX as int
                };
                let diff = t1 - t0;
                let ns = if diff < 0 {
                    0
                } else {
                    ((2 * diff + g.step_size) / (2 * g.step_size as int)) as nat
                };
                let m = march_spec(
                    g,
                    ray,
                    t0,
                    t1,
                    ns,
                    0,
                    fx::ONE as int,
                    Vec3 { x: 0i64, y: 0i64, z: 0i64 },
                    depth,
                );
                Some(HitRecord { transparency: m.0 as i64, resulted_color: m.1 })
            },
        }
    }
}

impl VolumeGrid {
    /// March a ray through the field: `None` when the bounce budget is
    /// exhausted or the box is missed; otherwise the transmittance of
    /// the traversed segment (always within `[0, 1]`) and the radiance
    /// scattered toward the ray. A pure vacuum field attenuates nothing
    /// and scatters nothing.
    pub fn get_color(&self, ray: &Ray, depth: u32) -> (r: Option<HitRecord>)
        requires
            self.wf(),
            ray.wf(),
        ensures
            r == grid_color_spec(*self, *ray, depth),
            depth == 0 ==> r is None,
            r matches Some(h) ==> 0 <= h.transparency <= fx::ONE && h.resulted_color.bounded(
                RAD_MAX as int,
            ) && 0 <= h.resulted_color.x && 0 <= h.resulted_color.y && 0 <= h.resulted_color.z,
            is_vacuum(*self) ==> (r matches Some(h) ==> h.transparency == fx::ONE
                && h.resulted_color == (Vec3 { x: 0i64, y: 0i64, z: 0i64 })),
        decreases depth,
    {
        if depth == 0 {
            return None;
        }
        let full = Interval::ray();
        let w: Interval = match self.bbox.hit(ray, &full) {
            None => {
                return None;
            },
            Some(w) => w,
        };
        let t0: i64 = w.min;
        let t1: i64 = if w.max <= T_MAX {
            w.max
        } else {
            T_MAX
        };
        let diff: i64 = t1 - t0;
        let ns: u64 = if diff < 0 {
            0
        } else {
            proof {
                fx::lemma_floor_div_range(
                    2 * diff as int + self.step_size as int,
                    0,
                    3 * (T_MAX as int),
                    2 * self.step_size as int,
                );
                vstd::arithmetic::div_mod::lemma_div_is_ordered_by_denominator(
                    3 * (T_MAX as int),
                    2,
                    2 * self.step_size as int,
                );
                assert((3 * (T_MAX as int)) / 2 == T_MAX as int + (T_MAX as int) / 2int);
                assert(0int / (2 * self.step_size as int) == 0) by (nonlinear_arith)
                    requires
                        self.step_size >= 1,
                ;
            }
            fx::floor_div(2 * (diff as i128) + self.step_size as i128, 2 * self.step_size as i128)
                as u64
        };
        let mut trans: i64 = fx::ONE;
        let mut res: Vec3 = Vec3 { x: 0, y: 0, z: 0 };
        let mut n: u64 = 0;
        let ghost m_goal = march_spec(
            *self,
            *ray,
            t0 as int,
            t1 as int,
            ns as nat,
            0,
            fx::ONE as int,
            Vec3 { x: 0i64, y: 0i64, z: 0i64 },
            depth,
        );
        while n < ns && trans > TRANS_EPS
            invariant
                self.wf(),
                ray.wf(),
                depth >= 1,
                n <= ns,
                0 <= trans <= fx::ONE,
                res.bounded(RAD_MAX as int),
                0 <= res.x && 0 <= res.y && 0 <= res.z,
                0 <= t0,
                t1 <= T_MAX,
                ns <= 0x18_0000_0000,
                ns > 0 ==> t0 <= t1,
                march_spec(
                    *self,
                    *ray,
                    t0 as int,
                    t1 as int,
                    ns as nat,
                    n as nat,
                    trans as int,
                    res,
                    depth,
                ) == m_goal,
                is_vacuum(*self) ==> trans == fx::ONE && res == (Vec3 { x: 0i64, y: 0i64, z: 0i64 }),
            decreases ns - n,
        {
            proof {
                lemma_mid_bounds(self.step_size as int, n as int, t0 as int);
            }
            let mid128: i128 = t0 as i128 + fx::floor_div(
                (self.step_size as i128) * ((n as i128) * 65536 + 32768),
                fx::ONE as i128,
            );
            let t: i64 = if (t1 as i128) <= mid128 {
                t1
            } else {
                mid128 as i64
            };
            let pos: Vec3 = ray.at(t);
            proof {
                crate::ray::lemma_at_bounds(*ray, t as int);
            }
            match self.get_interpolated_weight(pos) {
                None => {
                    n = n + 1;
                },
                Some(den) => {
                    proof {
                        lemma_unit_mul(self.scattering as int, self.absorption as int);
                        lemma_scaled_mul(
                            self.step_size as int,
                            den as int,
                            16 * (fx::ONE as int),
                            8 * (fx::ONE as int),
                        );
                        assert(fx::mul_spec(self.step_size as int, den as int) <= 128 * (
                        fx::ONE as int)) by (nonlinear_arith)
                            requires
                                fx::mul_spec(self.step_size as int, den as int) * (
                                fx::ONE as int) <= (16 * (fx::ONE as int)) * (8 * (
                                fx::ONE as int)),
                        ;
                        lemma_scaled_mul(
                            fx::mul_spec(self.step_size as int, den as int),
                            fx::mul_spec(self.scattering as int, self.absorption as int),
                            128 * (fx::ONE as int),
                            fx::ONE as int,
                        );
                        assert(fx::mul_spec(
                            fx::mul_spec(self.step_size as int, den as int),
                            fx::mul_spec(self.scattering as int, self.absorption as int),
                        ) <= 128 * (fx::ONE as int)) by (nonlinear_arith)
                            requires
                                fx::mul_spec(
                                    fx::mul_spec(self.step_size as int, den as int),
                                    fx::mul_spec(self.scattering as int, self.absorption as int),
                                ) * (fx::ONE as int) <= (128 * (fx::ONE as int)) * (
                                fx::ONE as int),
                        ;
                    }
                    let arg: i64 = fx::mul(
                        fx::mul(self.step_size, den),
                        fx::mul(self.scattering, self.absorption),
                    );
                    let st: i64 = fx::exp_neg(arg);
                    proof {
                        lemma_unit_mul(trans as int, st as int);
                    }
                    let trans2: i64 = fx::mul(trans, st);
                    let lray: Ray = Ray::new(pos.clamp_band(COORD_MAX), self.light_dir);
                    let lres: Option<HitRecord> = self.get_color(&lray, depth - 1);
                    match lres {
                        None => {
                            trans = trans2;
                            n = n + 1;
                        },
                        Some(lrec) => {
                            let cos: i64 = cos_between(&ray.direction, &self.light_dir);
                            let ph: i64 = self.phase(cos);
                            let c6: Vec3 = Vec3 {
                                x: scatter_chan(
                                    self.light_col.x,
                                    trans2,
                                    lrec.transparency,
                                    self.step_size,
                                    den,
                                    ph,
                                    self.scattering,
                                ),
                                y: scatter_chan(
                                    self.light_col.y,
                                    trans2,
                                    lrec.transparency,
                                    self.step_size,
                                    den,
                                    ph,
                                    self.scattering,
                                ),
                                z: scatter_chan(
                                    self.light_col.z,
                                    trans2,
                                    lrec.transparency,
                                    self.step_size,
                                    den,
                                    ph,
                                    self.scattering,
                                ),
                            };
                            let sx: i128 = (res.x as i128) + (c6.x as i128);
                            let sy: i128 = (res.y as i128) + (c6.y as i128);
                            let sz: i128 = (res.z as i128) + (c6.z as i128);
                            let nres = Vec3 {
                                x: if sx < -(RAD_MAX as i128) {
                                    -RAD_MAX
                                } else if sx > RAD_MAX as i128 {
                                    RAD_MAX
                                } else {
                                    sx as i64
                                },
                                y: if sy < -(RAD_MAX as i128) {
                                    -RAD_MAX
                                } else if sy > RAD_MAX as i128 {
                                    RAD_MAX
                                } else {
                                    sy as i64
                                },
                                z: if sz < -(RAD_MAX as i128) {
                                    -RAD_MAX
                                } else if sz > RAD_MAX as i128 {
                                    RAD_MAX
                                } else {
                                    sz as i64
                                },
                            };
                            proof {
                                assert(nres == add_sat_spec(
                                    res,
                                    c6,
                                    RAD_MAX as int,
                                ));
                            }
                            trans = trans2;
                            res = nres;
                            n = n + 1;
                        },
                    }
                },
            }
        }
        Some(HitRecord { transparency: trans, resulted_color: res })
    }
}

/// The step midpoint stays far inside the representable range.
proof fn lemma_mid_bounds(step: int, n: int, t0: int)
    requires
        1 <= step <= 16 * fx::ONE,
        0 <= n <= 0x40_0000_0000_0000,
        0 <= t0 <= T_MAX,
    ensures
        0 <= fx::mul_spec(step, n * 65536 + 32768),
        fx::mul_spec(step, n * 65536 + 32768) <= 0x4_0000_0000_0000_0000_0000,
        t0 + fx::mul_spec(step, n * 65536 + 32768) <= 0x8_0000_0000_0000_0000_0000,
        0 <= step * (n * 65536 + 32768) <= 0x4_0000_0000_0000_0000_0000_0000,
{
    assert(0 <= n * 65536 + 32768 <= 0x400_0000_0000_0000_0000) by (nonlinear_arith)
        requires
            0 <= n <= 0x40_0000_0000_0000,
    ;
    assert(0 <= step * (n * 65536 + 32768) <= 0x4_0000_0000_0000_0000_0000_0000)
        by (nonlinear_arith)
        requires
            1 <= step <= 16 * 65536,
            0 <= n * 65536 + 32768 <= 0x400_0000_0000_0000_0000,
    ;
    fx::lemma_floor_div_range(
        step * (n * 65536 + 32768),
        0,
        0x4_0000_0000_0000_0000_0000_0000,
        fx::ONE as int,
    );
    assert(0int / 65536 == 0) by (nonlinear_arith);
    assert(0x4_0000_0000_0000_0000_0000_0000int / 65536 == 0x4_0000_0000_0000_0000_0000)
        by (nonlinear_arith);
}

/// One channel of the radiance contribution, the six factors applied
/// in turn; every intermediate stays small and non-negative.
fn scatter_chan(c: i64, trans: i64, latt: i64, step: i64, den: i64, ph: i64, scat: i64) -> (r:
    i64)
    requires
        0 <= c <= 4 * fx::ONE,
        0 <= trans <= fx::ONE,
        0 <= latt <= fx::ONE,
        1 <= step <= 16 * fx::ONE,
        0 <= den <= 8 * fx::ONE,
        0 <= ph <= 0x2000_0000_0000,
        0 <= scat <= fx::ONE,
    ensures
        r == scatter_chan_spec(
            c as int,
            trans as int,
            latt as int,
            step as int,
            den as int,
            ph as int,
            scat as int,
        ),
        0 <= r <= 0x40_0000_0000_0000,
{
    proof {
        lemma_scale_comp_chain(
            c as int,
            trans as int,
            latt as int,
            step as int,
            den as int,
            ph as int,
            scat as int,
        );
    }
    let v1: i64 = fx::mul(c, trans);
    let v2: i64 = fx::mul(v1, latt);
    let v3: i64 = fx::mul(v2, step);
    let v4: i64 = fx::mul(v3, den);
    let v5: i64 = fx::mul(v4, ph);
    fx::mul(v5, scat)
}

/// One channel of the contribution chain.
proof fn lemma_scale_comp_chain(
    c: int,
    trans: int,
    latt: int,
    step: int,
    den: int,
    ph: int,
    scat: int,
)
    requires
        0 <= c <= 4 * fx::ONE,
        0 <= trans <= fx::ONE,
        0 <= latt <= fx::ONE,
        1 <= step <= 16 * fx::ONE,
        0 <= den <= 8 * fx::ONE,
        0 <= ph <= 0x2000_0000_0000,
        0 <= scat <= fx::ONE,
    ensures
        ({
            let v1 = fx::mul_spec(c, trans);
            let v2 = fx::mul_spec(v1, latt);
            let v3 = fx::mul_spec(v2, step);
            let v4 = fx::mul_spec(v3, den);
            let v5 = fx::mul_spec(v4, ph);
            let v6 = fx::mul_spec(v5, scat);
            &&& 0 <= v1 <= 4 * fx::ONE
            &&& 0 <= v2 <= 4 * fx::ONE
            &&& 0 <= v3 <= 64 * fx::ONE
            &&& 0 <= v4 <= 512 * fx::ONE
            &&& 0 <= v5 <= 0x40_0000_0000_0000
            &&& 0 <= v6 <= 0x40_0000_0000_0000
        }),
{
    lemma_scaled_mul(c, trans, 4 * (fx::ONE as int), fx::ONE as int);
    let v1 = fx::mul_spec(c, trans);
    assert(v1 <= 4 * fx::ONE) by (nonlinear_arith)
        requires
            v1 * (fx::ONE as int) <= (4 * (fx::ONE as int)) * (fx::ONE as int),
    ;
    lemma_scaled_mul(v1, latt, 4 * (fx::ONE as int), fx::ONE as int);
    let v2 = fx::mul_spec(v1, latt);
    assert(v2 <= 4 * fx::ONE) by (nonlinear_arith)
        requires
            v2 * (fx::ONE as int) <= (4 * (fx::ONE as int)) * (fx::ONE as int),
    ;
    lemma_scaled_mul(v2, step, 4 * (fx::ONE as int), 16 * (fx::ONE as int));
    let v3 = fx::mul_spec(v2, step);
    assert(v3 <= 64 * fx::ONE) by (nonlinear_arith)
        requires
            v3 * (fx::ONE as int) <= (4 * (fx::ONE as int)) * (16 * (fx::ONE as int)),
    ;
    lemma_scaled_mul(v3, den, 64 * (fx::ONE as int), 8 * (fx::ONE as int));
    let v4 = fx::mul_spec(v3, den);
    assert(v4 <= 512 * fx::ONE) by (nonlinear_arith)
        requires
            v4 * (fx::ONE as int) <= (64 * (fx::ONE as int)) * (8 * (fx::ONE as int)),
    ;
    lemma_scaled_mul(v4, ph, 512 * (fx::ONE as int), 0x2000_0000_0000);
    let v5 = fx::mul_spec(v4, ph);
    assert(v5 <= 0x40_0000_0000_0000) by (nonlinear_arith)
        requires
            v5 * (fx::ONE as int) <= (512 * (fx::ONE as int)) * 0x2000_0000_0000,
    ;
    lemma_scaled_mul(v5, scat, 0x40_0000_0000_0000, fx::ONE as int);
    let v6 = fx::mul_spec(v5, scat);
    assert(v6 <= 0x40_0000_0000_0000) by (nonlinear_arith)
        requires
            v6 * (fx::ONE as int) <= 0x40_0000_0000_0000 * (fx::ONE as int),
    ;
}

impl VolumeGrid {
    /// The box the lattice spans; a built field always has one.
    pub fn get_bbox(&self) -> (r: Option<Aabb>)
        ensures
            r == Some(self.bbox),
    {
        Some(self.bbox)
    }

    /// Build the field from the contents of a sparse-volume grid handed
    /// over as plain values: the integer corner cells of its extent and
    /// the list of occupied lattice positions, each of which receives
    /// the one base weight. Every listed cell must lie inside the
    /// extent. The medium parameters start at their defaults.
    pub fn build_from_vdb_grid(
        min_i: (i64, i64, i64),
        max_i: (i64, i64, i64),
        cells: &Vec<(i64, i64, i64)>,
        base_weight: i64,
    ) -> (r: VolumeGrid)
        requires
            -32768 <= min_i.0 && min_i.0 <= max_i.0 && max_i.0 <= 32767,
            -32768 <= min_i.1 && min_i.1 <= max_i.1 && max_i.1 <= 32767,
            -32768 <= min_i.2 && min_i.2 <= max_i.2 && max_i.2 <= 32767,
            max_i.0 - min_i.0 < GRID_DIM_MAX,
            max_i.1 - min_i.1 < GRID_DIM_MAX,
            max_i.2 - min_i.2 < GRID_DIM_MAX,
            0 <= base_weight <= fx::ONE,
            forall|k: int|
                0 <= k < cells@.len() ==> {
                    let c = #[trigger] cells@[k];
                    min_i.0 <= c.0 <= max_i.0 && min_i.1 <= c.1 <= max_i.1 && min_i.2 <= c.2
                        <= max_i.2
                },
        ensures
            r.wf(),
            r.bbox.min == (Vec3 {
                x: (min_i.0 * fx::ONE) as i64,
                y: (min_i.1 * fx::ONE) as i64,
                z: (min_i.2 * fx::ONE) as i64,
            }),
            r.bbox.max == (Vec3 {
                x: (max_i.0 * fx::ONE) as i64,
                y: (max_i.1 * fx::ONE) as i64,
                z: (max_i.2 * fx::ONE) as i64,
            }),
            r.weights@.len() == max_i.0 - min_i.0 + 1,
            forall|x: int|
                0 <= x < r.weights@.len() ==> (#[trigger] r.weights@[x]@).len() == max_i.1
                    - min_i.1 + 1,
            forall|x: int, y: int|
                0 <= x < r.weights@.len() && 0 <= y < r.weights@[x]@.len()
                    ==> (#[trigger] r.weights@[x]@[y]@).len() == max_i.2 - min_i.2 + 1,
            r.shift == (Vec3 {
                x: (-min_i.0 * fx::ONE) as i64,
                y: (-min_i.1 * fx::ONE) as i64,
                z: (-min_i.2 * fx::ONE) as i64,
            }),
            forall|x: int, y: int, z: int|
                0 <= x <= max_i.0 - min_i.0 && 0 <= y <= max_i.1 - min_i.1 && 0 <= z <= max_i.2
                    - min_i.2 ==> #[trigger] cell_spec(r, x, y, z) == (if cells@.contains(
                    ((x + min_i.0) as i64, (y + min_i.1) as i64, (z + min_i.2) as i64),
                ) {
                    Some(base_weight)
                } else {
                    None::<i64>
                }),
    {
        let nx: usize = (max_i.0 - min_i.0 + 1) as usize;
        let ny: usize = (max_i.1 - min_i.1 + 1) as usize;
        let nz: usize = (max_i.2 - min_i.2 + 1) as usize;
        let mut weights: Vec<Vec<Vec<Option<i64>>>> = Vec::new();
        let mut xi: usize = 0;
        while xi < nx
            invariant
                weights@.len() == xi,
                xi <= nx,
                1 <= ny <= GRID_DIM_MAX,
                1 <= nz <= GRID_DIM_MAX,
                forall|x: int|
                    0 <= x < xi ==> (#[trigger] weights@[x]@).len() == ny,
                forall|x: int, y: int|
                    0 <= x < xi && 0 <= y < ny ==> (#[trigger] weights@[x]@[y]@).len() == nz,
                forall|x: int, y: int, z: int|
                    0 <= x < xi && 0 <= y < ny && 0 <= z < nz
                        ==> #[trigger] weights@[x]@[y]@[z] is None,
            decreases nx - xi,
        {
            let mut row: Vec<Vec<Option<i64>>> = Vec::new();
            let mut yi: usize = 0;
            while yi < ny
                invariant
                    row@.len() == yi,
                    yi <= ny,
                    1 <= nz <= GRID_DIM_MAX,
                    forall|y: int| 0 <= y < yi ==> (#[trigger] row@[y]@).len() == nz,
                    forall|y: int, z: int|
                        0 <= y < yi && 0 <= z < nz ==> #[trigger] row@[y]@[z] is None,
                decreases ny - yi,
            {
                let mut col: Vec<Option<i64>> = Vec::new();
                let mut zi: usize = 0;
                while zi < nz
                    invariant
                        col@.len() == zi,
                        zi <= nz,
                        forall|z: int| 0 <= z < zi ==> #[trigger] col@[z] is None,
                    decreases nz - zi,
                {
                    col.push(None);
                    zi = zi + 1;
                }
                row.push(col);
                yi = yi + 1;
            }
            weights.push(row);
            xi = xi + 1;
        }
        let mut k: usize = 0;
        while k < cells.len()
            invariant
                weights@.len() == nx,
                nx == max_i.0 - min_i.0 + 1,
                ny == max_i.1 - min_i.1 + 1,
                nz == max_i.2 - min_i.2 + 1,
                1 <= nx <= GRID_DIM_MAX,
                1 <= ny <= GRID_DIM_MAX,
                1 <= nz <= GRID_DIM_MAX,
                k <= cells@.len(),
                forall|j: int|
                    0 <= j < cells@.len() ==> {
                        let c = #[trigger] cells@[j];
                        min_i.0 <= c.0 <= max_i.0 && min_i.1 <= c.1 <= max_i.1 && min_i.2 <= c.2
                            <= max_i.2
                    },
                forall|x: int|
                    0 <= x < nx ==> (#[trigger] weights@[x]@).len() == ny,
                forall|x: int, y: int|
                    0 <= x < nx && 0 <= y < ny ==> (#[trigger] weights@[x]@[y]@).len() == nz,
                forall|x: int, y: int, z: int|
                    0 <= x < nx && 0 <= y < ny && 0 <= z < nz ==> #[trigger] weights@[x]@[y]@[z]
                        == (if cells@.subrange(0, k as int).contains(
                        ((x + min_i.0) as i64, (y + min_i.1) as i64, (z + min_i.2) as i64),
                    ) {
                        Some(base_weight)
                    } else {
                        None::<i64>
                    }),
            decreases cells@.len() - k,
        {
            let c: (i64, i64, i64) = cells[k];
            let cx: usize = (c.0 - min_i.0) as usize;
            let cy: usize = (c.1 - min_i.1) as usize;
            let cz: usize = (c.2 - min_i.2) as usize;
            let ghost pre = weights@;
            weights[cx][cy][cz] = Some(base_weight);
            proof {
                assert(cells@.subrange(0, k as int + 1) =~= cells@.subrange(0, k as int).push(
                    cells@[k as int],
                ));
                assert forall|x: int, y: int, z: int|
                    0 <= x < nx && 0 <= y < ny && 0 <= z < nz implies #[trigger] weights@[x]@[y]@[z]
                    == (if cells@.subrange(0, k as int + 1).contains(
                    ((x + min_i.0) as i64, (y + min_i.1) as i64, (z + min_i.2) as i64),
                ) {
                    Some(base_weight)
                } else {
                    None::<i64>
                }) by {
                    let key = ((x + min_i.0) as i64, (y + min_i.1) as i64, (z + min_i.2) as i64);
                    if x == cx && y == cy && z == cz {
                        assert(cells@.subrange(0, k as int + 1)[k as int] == cells@[k as int]);
                        assert(cells@[k as int] == key);
                        assert(cells@.subrange(0, k as int + 1).contains(key));
                    } else {
                        assert(weights@[x]@[y]@[z] == pre[x]@[y]@[z]);
                        assert(cells@.subrange(0, k as int + 1).contains(key)
                            == cells@.subrange(0, k as int).contains(key)) by {
                            if cells@.subrange(0, k as int).contains(key) {
                                let j = choose|j: int|
                                    0 <= j < k && #[trigger] cells@.subrange(0, k as int)[j]
                                        == key;
                                assert(cells@.subrange(0, k as int + 1)[j] == key);
                            }
                            if cells@.subrange(0, k as int + 1).contains(key) {
                                let j = choose|j: int|
                                    0 <= j < k + 1 && #[trigger] cells@.subrange(
                                        0,
                                        k as int + 1,
                                    )[j] == key;
                                if j < k {
                                    assert(cells@.subrange(0, k as int)[j] == key);
                                } else {
                                    assert(cells@[k as int] == key);
                                    assert(false);
                                }
                            }
                        }
                    }
                }
            }
            k = k + 1;
        }
        proof {
            assert(cells@.subrange(0, cells@.len() as int) =~= cells@);
        }
        VolumeGrid {
            bbox: Aabb {
                min: Vec3 { x: min_i.0 * fx::ONE, y: min_i.1 * fx::ONE, z: min_i.2 * fx::ONE },
                max: Vec3 { x: max_i.0 * fx::ONE, y: max_i.1 * fx::ONE, z: max_i.2 * fx::ONE },
            },
            weights,
            shift: Vec3 {
                x: -min_i.0 * fx::ONE,
                y: -min_i.1 * fx::ONE,
                z: -min_i.2 * fx::ONE,
            },
            light_dir: Vec3 { x: 6554, y: 13107, z: -fx::ONE },
            light_col: Vec3 { x: 32768, y: 32768, z: 32768 },
            absorption: 8520,
            scattering: 52429,
            g: 6554,
            step_size: fx::ONE,
        }
    }
}

/// The Euclidean remainder of a lattice projection is a tent fraction.
proof fn lemma_frac_range(p: int, q: int)
    requires
        q == p / (fx::ONE as int),
    ensures
        0 <= p - q * (fx::ONE as int) < fx::ONE,
        i64::MIN <= p - q * (fx::ONE as int) <= i64::MAX,
{
    vstd::arithmetic::div_mod::lemma_fundamental_div_mod(p, fx::ONE as int);
    vstd::arithmetic::div_mod::lemma_mod_bound(p, fx::ONE as int);
    assert(p - q * (fx::ONE as int) == p % (fx::ONE as int)) by (nonlinear_arith)
        requires
            p == (fx::ONE as int) * q + p % (fx::ONE as int),
    ;
}

} // verus!
