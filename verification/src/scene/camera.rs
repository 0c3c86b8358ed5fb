//! The projective camera: rays are built directly from a camera-to-world
//! transform, the form used when an external controller drives the view.

use vstd::prelude::*;
use crate::fx;
use crate::ray::{Ray, COORD_MAX, MIN_DIR_SQ};
use crate::vec3::{cross_spec, len_sq_raw, normalize_spec, Vec3};

verus! {

/// Axis columns of a view transform stay within a couple of units.
pub const MAT_AXIS_MAX: i64 = 0x2_0010;

/// The translation column stays well inside the ray-origin band.
pub const MAT_W_MAX: i64 = 0x10_0000_0000;

/// The 3x4 part of a column-major transform: three rotation columns and
/// a translation column.
#[derive(Clone, Copy, PartialEq, Eq, Structural, Debug)]
pub struct Mat4 {
    pub x_axis: Vec3,
    pub y_axis: Vec3,
    pub z_axis: Vec3,
    pub w_axis: Vec3,
}

/// The mirror of `Mat4::look_at_rh`: a right-handed view basis from the
/// eye toward the center, with a fixed fallback side axis when the
/// forward direction is parallel to the up vector.
pub open spec fn look_at_spec(eye: Vec3, center: Vec3, up: Vec3) -> Mat4 {
    let f = normalize_spec(center.sub_spec(eye));
    let cr = cross_spec(f, up);
    let s = if len_sq_raw(cr) >= MIN_DIR_SQ as int {
        normalize_spec(cr)
    } else {
        Vec3 { x: fx::ONE, y: 0i64, z: 0i64 }
    };
    let u = cross_spec(s, f);
    Mat4 {
        x_axis: Vec3 { x: s.x, y: u.x, z: (0 - f.x) as i64 },
        y_axis: Vec3 { x: s.y, y: u.y, z: (0 - f.y) as i64 },
        z_axis: Vec3 { x: s.z, y: u.z, z: (0 - f.z) as i64 },
        w_axis: Vec3 {
            x: (0 - s.dot_spec(eye)) as i64,
            y: (0 - u.dot_spec(eye)) as i64,
            z: f.dot_spec(eye) as i64,
        },
    }
}

pub open spec fn transform_vector3_spec(m: Mat4, v: Vec3) -> Vec3 {
    m.x_axis.scale_spec(v.x as int).add_spec(m.y_axis.scale_spec(v.y as int)).add_spec(
        m.z_axis.scale_spec(v.z as int),
    )
}

pub open spec fn transform_point3_spec(m: Mat4, p: Vec3) -> Vec3 {
    transform_vector3_spec(m, p).add_spec(m.w_axis)
}

impl Mat4 {
    pub open spec fn wf(self) -> bool {
        &&& self.x_axis.bounded(MAT_AXIS_MAX as int)
        &&& self.y_axis.bounded(MAT_AXIS_MAX as int)
        &&& self.z_axis.bounded(MAT_AXIS_MAX as int)
        &&& self.w_axis.bounded(MAT_W_MAX as int)
    }

    /// A right-handed look-at view transform, as the external math
    /// library builds it: forward, side and up columns with the eye
    /// projected onto them as the translation.
    pub fn look_at_rh(eye: Vec3, center: Vec3, up: Vec3) -> (r: Mat4)
        requires
            eye.bounded(crate::hittable::SCENE_MAX as int),
            center.bounded(crate::hittable::SCENE_MAX as int),
            up.bounded(4 * fx::ONE),
            len_sq_raw(center.sub_spec(eye)) >= MIN_DIR_SQ,
        ensures
            r == look_at_spec(eye, center, up),
            r.wf(),
    {
        let f: Vec3 = center.sub(&eye).normalize();
        let cr: Vec3 = f.cross(&up);
        proof {
            lemma_up_cross_bounds(f, up);
        }
        let lsq: i128 = cr.length_squared_raw();
        let s: Vec3 = if lsq >= MIN_DIR_SQ as i128 {
            cr.normalize()
        } else {
            Vec3 { x: fx::ONE, y: 0, z: 0 }
        };
        let u: Vec3 = s.cross(&f);
        proof {
            lemma_axis_bounds(s, f, u);
            lemma_dot_eye_bounds(s, eye);
            lemma_dot_eye_bounds(u, eye);
            lemma_dot_eye_bounds(f, eye);
        }
        let sx: i64 = s.dot(&eye);
        let ux: i64 = u.dot(&eye);
        let fx_: i64 = f.dot(&eye);
        Mat4 {
            x_axis: Vec3 { x: s.x, y: u.x, z: -f.x },
            y_axis: Vec3 { x: s.y, y: u.y, z: -f.y },
            z_axis: Vec3 { x: s.z, y: u.z, z: -f.z },
            w_axis: Vec3 { x: -sx, y: -ux, z: fx_ },
        }
    }

    /// Apply the rotation part to a direction.
    pub fn transform_vector3(&self, v: Vec3) -> (r: Vec3)
        requires
            self.wf(),
            v.bounded(2 * fx::ONE),
        ensures
            r == transform_vector3_spec(*self, v),
            r.bounded(0x10_0000),
    {
        proof {
            lemma_col_scale(self.x_axis, v.x as int);
            lemma_col_scale(self.y_axis, v.y as int);
            lemma_col_scale(self.z_axis, v.z as int);
        }
        self.x_axis.scale(v.x).add(&self.y_axis.scale(v.y)).add(&self.z_axis.scale(v.z))
    }

    /// Apply the whole transform to a point.
    pub fn transform_point3(&self, p: Vec3) -> (r: Vec3)
        requires
            self.wf(),
            p.bounded(2 * fx::ONE),
        ensures
            r == transform_point3_spec(*self, p),
            r.bounded(MAT_W_MAX + 0x10_0000),
    {
        let v: Vec3 = self.transform_vector3(p);
        v.add(&self.w_axis)
    }
}

/// The cross of a unit-ish forward with a bounded up vector stays far
/// inside the scalar range.
proof fn lemma_up_cross_bounds(f: Vec3, up: Vec3)
    requires
        f.bounded(fx::ONE + 1),
        up.bounded(4 * fx::ONE),
    ensures
        cross_spec(f, up).bounded(0x9_0000),
{
    lemma_up_cross_comp(f.y as int, up.z as int, f.z as int, up.y as int);
    lemma_up_cross_comp(f.z as int, up.x as int, f.x as int, up.z as int);
    lemma_up_cross_comp(f.x as int, up.y as int, f.y as int, up.x as int);
}

proof fn lemma_up_cross_comp(a: int, b: int, c: int, d: int)
    requires
        -(fx::ONE + 1) <= a <= fx::ONE + 1,
        -4 * fx::ONE <= b <= 4 * fx::ONE,
        -(fx::ONE + 1) <= c <= fx::ONE + 1,
        -4 * fx::ONE <= d <= 4 * fx::ONE,
    ensures
        -0x9_0000 <= fx::mul_spec(a, b) - fx::mul_spec(c, d) <= 0x9_0000,
{
    assert(-65537int * (4 * 65536) <= a * b <= 65537int * (4 * 65536) && -65537int * (4 * 65536)
        <= c * d <= 65537int * (4 * 65536)) by (nonlinear_arith)
        requires
            -65537 <= a <= 65537,
            -4 * 65536 <= b <= 4 * 65536,
            -65537 <= c <= 65537,
            -4 * 65536 <= d <= 4 * 65536,
    ;
    fx::lemma_floor_div_range(a * b, -65537int * (4 * 65536), 65537int * (4 * 65536), fx::ONE as int);
    fx::lemma_floor_div_range(c * d, -65537int * (4 * 65536), 65537int * (4 * 65536), fx::ONE as int);
    assert((65537int * (4 * 65536)) / 65536 == 262148 && (-65537int * (4 * 65536)) / 65536
        == -262148) by (nonlinear_arith);
}

/// The basis columns built by the look-at construction stay within a
/// couple of units.
proof fn lemma_axis_bounds(s: Vec3, f: Vec3, u: Vec3)
    requires
        s.bounded(fx::ONE + 1),
        f.bounded(fx::ONE + 1),
        u == cross_spec(s, f),
    ensures
        u.bounded(MAT_AXIS_MAX as int),
{
    lemma_cross_comp(s.y as int, f.z as int, s.z as int, f.y as int);
    lemma_cross_comp(s.z as int, f.x as int, s.x as int, f.z as int);
    lemma_cross_comp(s.x as int, f.y as int, s.y as int, f.x as int);
}

/// One component of a cross product of unit-ish vectors.
proof fn lemma_cross_comp(a: int, b: int, c: int, d: int)
    requires
        -(fx::ONE + 1) <= a <= fx::ONE + 1,
        -(fx::ONE + 1) <= b <= fx::ONE + 1,
        -(fx::ONE + 1) <= c <= fx::ONE + 1,
        -(fx::ONE + 1) <= d <= fx::ONE + 1,
    ensures
        -(MAT_AXIS_MAX as int) <= fx::mul_spec(a, b) - fx::mul_spec(c, d) <= MAT_AXIS_MAX as int,
        i64::MIN <= fx::mul_spec(a, b) - fx::mul_spec(c, d) <= i64::MAX,
        -0x1_0010 <= fx::mul_spec(a, b) <= 0x1_0010,
        -0x1_0010 <= fx::mul_spec(c, d) <= 0x1_0010,
{
    assert(-65537int * 65537 <= a * b <= 65537int * 65537 && -65537int * 65537 <= c * d
        <= 65537int * 65537) by (nonlinear_arith)
        requires
            -65537 <= a <= 65537,
            -65537 <= b <= 65537,
            -65537 <= c <= 65537,
            -65537 <= d <= 65537,
    ;
    fx::lemma_floor_div_range(a * b, -65537int * 65537, 65537int * 65537, fx::ONE as int);
    fx::lemma_floor_div_range(c * d, -65537int * 65537, 65537int * 65537, fx::ONE as int);
    assert((65537int * 65537) / 65536 == 65538 && (-65537int * 65537) / 65536 == -65539)
        by (nonlinear_arith);
}

/// Projecting the eye onto a basis column stays within the translation
/// band.
proof fn lemma_dot_eye_bounds(axis: Vec3, eye: Vec3)
    requires
        axis.bounded(MAT_AXIS_MAX as int),
        eye.bounded(crate::hittable::SCENE_MAX as int),
    ensures
        -(MAT_W_MAX as int) < axis.dot_spec(eye) < MAT_W_MAX as int,
{
    crate::vec3::lemma_raw_dot_bound(axis, eye, MAT_AXIS_MAX as int, crate::hittable::SCENE_MAX as int);
    fx::lemma_floor_div_range(
        crate::vec3::raw_dot(axis, eye),
        -3 * (MAT_AXIS_MAX as int) * (crate::hittable::SCENE_MAX as int),
        3 * (MAT_AXIS_MAX as int) * (crate::hittable::SCENE_MAX as int),
        fx::ONE as int,
    );
    assert((3 * (0x2_0010int) * 0x1_0000_0000) / 65536 < 0x10_0000_0000int && (-3 * (
    0x2_0010int) * 0x1_0000_0000) / 65536 > -0x10_0000_0000int) by (nonlinear_arith);
}

/// Scaling a basis column by a unit-ish coordinate keeps it small.
proof fn lemma_col_scale(col: Vec3, s: int)
    requires
        col.bounded(MAT_AXIS_MAX as int),
        -2 * fx::ONE <= s <= 2 * fx::ONE,
    ensures
        col.scale_spec(s).bounded(0x4_0100),
        -0x4_0100 <= fx::mul_spec(col.x as int, s) <= 0x4_0100,
        -0x4_0100 <= fx::mul_spec(col.y as int, s) <= 0x4_0100,
        -0x4_0100 <= fx::mul_spec(col.z as int, s) <= 0x4_0100,
{
    lemma_col_scale_comp(col.x as int, s);
    lemma_col_scale_comp(col.y as int, s);
    lemma_col_scale_comp(col.z as int, s);
}

proof fn lemma_col_scale_comp(c: int, s: int)
    requires
        -(MAT_AXIS_MAX as int) <= c <= MAT_AXIS_MAX as int,
        -2 * fx::ONE <= s <= 2 * fx::ONE,
    ensures
        -0x4_0100 <= fx::mul_spec(c, s) <= 0x4_0100,
{
    assert(-(0x2_0010int) * (2 * 65536) <= c * s <= (0x2_0010int) * (2 * 65536))
        by (nonlinear_arith)
        requires
            -0x2_0010 <= c <= 0x2_0010,
            -2 * 65536 <= s <= 2 * 65536,
    ;
    fx::lemma_floor_div_range(
        c * s,
        -(0x2_0010int) * (2 * 65536),
        (0x2_0010int) * (2 * 65536),
        fx::ONE as int,
    );
    assert(((0x2_0010int) * (2 * 65536)) / 65536 == 0x4_0020 && ((-0x2_0010int) * (2 * 65536))
        / 65536 == -0x4_0020) by (nonlinear_arith);
}

/// The projective camera itself: one transform.
pub struct Camera {
    pub camera_to_world: Mat4,
}

/// The mirror of `Camera::get_ray`: the eye is the transformed origin,
/// the direction the transformed image-plane offset, with a fixed
/// forward fallback if the transform degenerates.
pub open spec fn camera_ray_spec(c: Camera, u: int, v: int) -> Ray {
    let origin = transform_point3_spec(c.camera_to_world, Vec3 { x: 0i64, y: 0i64, z: 0i64 });
    let d0 = Vec3 {
        x: (2 * u - fx::ONE) as i64,
        y: (0 - (2 * v - fx::ONE)) as i64,
        z: fx::ONE,
    };
    let d = transform_vector3_spec(c.camera_to_world, d0);
    let dir = if len_sq_raw(d) >= MIN_DIR_SQ as int {
        d
    } else {
        Vec3 { x: 0i64, y: 0i64, z: fx::ONE }
    };
    Ray { origin, direction: normalize_spec(dir) }
}

impl Camera {
    /// The external controller's camera ignores everything but the eye
    /// and target: the view transform is a plain look-at with the world
    /// up axis.
    pub fn new(look_from: Vec3, look_at: Vec3, _vup: Vec3, _vfov: i64, _aspect: i64) -> (r: Self)
        requires
            look_from.bounded(crate::hittable::SCENE_MAX as int),
            look_at.bounded(crate::hittable::SCENE_MAX as int),
            len_sq_raw(look_at.sub_spec(look_from)) >= MIN_DIR_SQ,
        ensures
            r.camera_to_world == look_at_spec(
                look_from,
                look_at,
                Vec3 { x: 0i64, y: fx::ONE, z: 0i64 },
            ),
            r.camera_to_world.wf(),
    {
        Self {
            camera_to_world: Mat4::look_at_rh(look_from, look_at, Vec3 { x: 0, y: fx::ONE, z: 0 }),
        }
    }

    /// The ray through normalized image coordinates `(u, v)`.
    pub fn get_ray(&self, u: i64, v: i64) -> (r: Ray)
        requires
            self.camera_to_world.wf(),
            0 <= u < fx::ONE,
            0 <= v < fx::ONE,
        ensures
            r == camera_ray_spec(*self, u as int, v as int),
            r.wf(),
    {
        let origin: Vec3 = self.camera_to_world.transform_point3(Vec3 { x: 0, y: 0, z: 0 });
        let d0 = Vec3 { x: 2 * u - fx::ONE, y: -(2 * v - fx::ONE), z: fx::ONE };
        let d: Vec3 = self.camera_to_world.transform_vector3(d0);
        let lsq: i128 = d.length_squared_raw();
        let dir: Vec3 = if lsq >= MIN_DIR_SQ as i128 {
            d
        } else {
            Vec3 { x: 0, y: 0, z: fx::ONE }
        };
        Ray::new(origin, dir)
    }
}

} // verus!
