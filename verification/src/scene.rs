//! The volumetric scene: one density field against a flat background.
//! The pixel color of a ray is the background attenuated by the field's
//! transmittance plus the radiance scattered toward the camera.

pub mod camera;

use vstd::prelude::*;
use crate::fx;
use crate::aabb::Aabb;
use crate::grid::{grid_color_spec, VolumeGrid, RAD_MAX};
use crate::ray::Ray;
use crate::vec3::Vec3;

verus! {

/// The small fixed recursion budget of the volumetric evaluation: one
/// camera segment and one light segment.
pub const VOLUME_DEPTH: u32 = 2;

/// The mirror of the per-ray volumetric color: on a miss the plain
/// background, on a sample the background scaled by the transmittance
/// plus the in-scattered radiance.
pub open spec fn volume_color_spec(g: VolumeGrid, ray: Ray, bg: Vec3) -> Vec3 {
    match grid_color_spec(g, ray, VOLUME_DEPTH) {
        None => bg,
        Some(h) => bg.scale_spec(h.transparency as int).add_spec(h.resulted_color),
    }
}

/// Evaluate one camera ray against the field.
pub fn volume_color(g: &VolumeGrid, ray: &Ray, bg: &Vec3) -> (r: Vec3)
    requires
        g.wf(),
        ray.wf(),
        bg.bounded(4 * fx::ONE),
        0 <= bg.x && 0 <= bg.y && 0 <= bg.z,
    ensures
        r == volume_color_spec(*g, *ray, *bg),
        r.bounded(RAD_MAX + 4 * fx::ONE),
        0 <= r.x && 0 <= r.y && 0 <= r.z,
{
    let rec = match g.get_color(ray, VOLUME_DEPTH) {
        None => {
            return *bg;
        },
        Some(h) => h,
    };
    proof {
        crate::grid::lemma_scaled_mul(bg.x as int, rec.transparency as int, 4 * (fx::ONE as int), fx::ONE as int);
        crate::grid::lemma_scaled_mul(bg.y as int, rec.transparency as int, 4 * (fx::ONE as int), fx::ONE as int);
        crate::grid::lemma_scaled_mul(bg.z as int, rec.transparency as int, 4 * (fx::ONE as int), fx::ONE as int);
        lemma_bg_scale(bg.x as int, rec.transparency as int);
        lemma_bg_scale(bg.y as int, rec.transparency as int);
        lemma_bg_scale(bg.z as int, rec.transparency as int);
    }
    bg.scale(rec.transparency).add(&rec.resulted_color)
}

/// Scaling a background channel by a unit-range transmittance keeps it
/// in its band.
proof fn lemma_bg_scale(c: int, t: int)
    requires
        0 <= c <= 4 * fx::ONE,
        0 <= t <= fx::ONE,
    ensures
        0 <= fx::mul_spec(c, t) <= 4 * fx::ONE,
{
    crate::grid::lemma_scaled_mul(c, t, 4 * (fx::ONE as int), fx::ONE as int);
    assert(fx::mul_spec(c, t) <= 4 * fx::ONE) by (nonlinear_arith)
        requires
            fx::mul_spec(c, t) * (fx::ONE as int) <= (4 * (fx::ONE as int)) * (fx::ONE as int),
    ;
}

pub struct Scene {
    pub grid: VolumeGrid,
    pub background: Vec3,
}

impl Scene {
    /// The field is well formed and the background is a non-negative
    /// bounded color.
    pub open spec fn wf(self) -> bool {
        &&& self.grid.wf()
        &&& self.background.bounded(4 * fx::ONE)
        &&& 0 <= self.background.x && 0 <= self.background.y && 0 <= self.background.z
    }

    /// A scene over an already-built field. Loading the field from a
    /// volumetric asset happens outside, where the file lives.
    pub fn new(grid: VolumeGrid, background: Vec3) -> (r: Self)
        ensures
            r.grid == grid,
            r.background == background,
    {
        Self { grid, background }
    }

    /// Replace the field wholesale, as a fresh asset load does.
    pub fn update_scene(&mut self, grid: VolumeGrid)
        ensures
            final(self).grid == grid,
            final(self).background == old(self).background,
    {
        self.grid = grid;
    }

    pub fn get_bbox(&self) -> (r: Option<Aabb>)
        ensures
            r == Some(self.grid.bbox),
    {
        Some(self.grid.bbox)
    }

    /// The color of one camera ray through the scene.
    pub fn get_color(&self, ray: Ray) -> (r: Vec3)
        requires
            self.wf(),
            ray.wf(),
        ensures
            r == volume_color_spec(self.grid, ray, self.background),
            r.bounded(RAD_MAX + 4 * fx::ONE),
            0 <= r.x && 0 <= r.y && 0 <= r.z,
    {
        volume_color(&self.grid, &ray, &self.background)
    }
}

} // verus!
