//! The explicit look-at camera and the offline render loop: a view
//! basis from eye, target and up vector, an image plane sized by the
//! vertical field of view, and a pixel loop that averages jittered
//! samples of the volumetric field into a frame buffer.

use vstd::prelude::*;
use crate::fx;
use crate::grid::{VolumeGrid, RAD_MAX};
use crate::ray::{Ray, MIN_DIR_SQ};
use crate::render::{clamp_channel_spec, Color, RenderView};
use crate::scene::volume_color_spec;
use crate::util::{rand_in_square, square_draw_spec, Rng};
use crate::vec3::{cross_spec, len_sq_raw, normalize_spec, Vec3};

verus! {

/// The background of the offline renderer: a pale sky blue.
pub open spec fn offline_bg_spec() -> Vec3 {
    Vec3 { x: 37487i64, y: 50594i64, z: 60358i64 }
}

pub struct Camera {
    pub top_left_corner: Vec3,
    pub vertical: Vec3,
    pub horizontal: Vec3,
    pub look_from: Vec3,
}

/// The mirror of `Camera::new`: the orthonormal-ish view basis, the
/// half extents of the image plane from the field of view, and the
/// plane's corner and spans.
pub open spec fn camera_new_spec(
    look_from: Vec3,
    look_at: Vec3,
    vup: Vec3,
    vfov: int,
    aspect: int,
) -> Camera {
    let w = normalize_spec(look_from.sub_spec(look_at));
    let cr = cross_spec(vup, w);
    let u = if len_sq_raw(cr) >= MIN_DIR_SQ as int {
        normalize_spec(cr)
    } else {
        Vec3 { x: fx::ONE, y: 0i64, z: 0i64 }
    };
    let v = cross_spec(u, w);
    let half_height = fx::tan_spec(fx::div_spec(fx::mul_spec(vfov, fx::PI as int), 360 * (
    fx::ONE as int)));
    let half_width = fx::mul_spec(half_height, aspect);
    let vs = v.scale_spec(half_height);
    let us = u.scale_spec(half_width);
    Camera {
        top_left_corner: look_from.sub_spec(w).sub_spec(vs).sub_spec(us),
        vertical: vs.scale_spec(2 * fx::ONE),
        horizontal: us.scale_spec(2 * fx::ONE),
        look_from,
    }
}

/// The mirror of `Camera::get_ray`: from the eye through the image
/// plane point at the normalized coordinates, with a fixed forward
/// fallback if the offset degenerates.
pub open spec fn camera_get_ray_spec(c: Camera, u: int, v: int) -> Ray {
    let d = c.top_left_corner.add_spec(c.horizontal.scale_spec(u)).add_spec(
        c.vertical.scale_spec(v),
    ).sub_spec(c.look_from);
    let dir = if len_sq_raw(d) >= MIN_DIR_SQ as int {
        d
    } else {
        Vec3 { x: 0i64, y: 0i64, z: fx::ONE }
    };
    Ray { origin: c.look_from, direction: normalize_spec(dir) }
}

impl Camera {
    /// The eye sits in the scene band, the plane's corner nearby, and
    /// the spans are bounded by the widest field of view and aspect.
    pub open spec fn wf(self) -> bool {
        &&& self.look_from.bounded(crate::hittable::SCENE_MAX as int)
        &&& self.top_left_corner.bounded(0x4_0000_0000_0000)
        &&& self.vertical.bounded(0x2_0000_0000_0000)
        &&& self.horizontal.bounded(0x2_0000_0000_0000)
    }

    /// Build the view basis and image plane. The field of view is in
    /// fixed-point degrees, below a straight angle; the aspect ratio is
    /// at most sixteen to one.
    pub fn new(look_from: Vec3, look_at: Vec3, vup: Vec3, vfov: i64, aspect: i64) -> (r: Camera)
        requires
            look_from.bounded(crate::hittable::SCENE_MAX as int),
            look_at.bounded(crate::hittable::SCENE_MAX as int),
            vup.bounded(4 * fx::ONE),
            len_sq_raw(look_from.sub_spec(look_at)) >= MIN_DIR_SQ,
            0 < vfov <= 180 * fx::ONE,
            0 < aspect <= 16 * fx::ONE,
        ensures
            r == camera_new_spec(
                look_from,
                look_at,
                vup,
                vfov as int,
                aspect as int,
            ),
            r.wf(),
    {
        let w: Vec3 = look_from.sub(&look_at).normalize();
        let cr: Vec3 = vup.cross(&w);
        proof {
            lemma_vup_cross_bounds(vup, w);
        }
        let lsq: i128 = cr.length_squared_raw();
        let u: Vec3 = if lsq >= MIN_DIR_SQ as i128 {
            cr.normalize()
        } else {
            Vec3 { x: fx::ONE, y: 0, z: 0 }
        };
        let v: Vec3 = u.cross(&w);
        proof {
            lemma_basis_cross_bounds(u, w);
            lemma_rad_in_tan_domain(vfov as int);
        }
        let rad: i64 = fx::div(fx::mul(vfov, fx::PI), 360 * fx::ONE);
        let half_height: i64 = fx::tan(rad);
        proof {
            crate::grid::lemma_scaled_mul(
                half_height as int,
                aspect as int,
                fx::TAN_CAP as int,
                16 * (fx::ONE as int),
            );
            assert(fx::mul_spec(half_height as int, aspect as int) <= 16 * (fx::TAN_CAP as int))
                by (nonlinear_arith)
                requires
                    fx::mul_spec(half_height as int, aspect as int) * (fx::ONE as int) <= (
                    fx::TAN_CAP as int) * (16 * (fx::ONE as int)),
            ;
            lemma_scale_mag(v, half_height as int, 0x2_0100, fx::TAN_CAP as int);
        }
        let half_width: i64 = fx::mul(half_height, aspect);
        proof {
            lemma_scale_mag(u, half_width as int, 0x1_0010, 16 * (fx::TAN_CAP as int));
        }
        let vs: Vec3 = v.scale(half_height);
        let us: Vec3 = u.scale(half_width);
        proof {
            lemma_double(vs, 0x2_0100int * 0x400_0000);
            lemma_double(us, 0x1_0010int * 0x4000_0000);
            assert(2 * (0x2_0100int * 0x400_0000) <= 0x2_0000_0000_0000 && 2 * (0x1_0010int
                * 0x4000_0000) <= 0x2_0000_0000_0000 && 0x2_0100int * 0x400_0000
                <= 0x1000_0000_0000_0000 && 0x1_0010int * 0x4000_0000 <= 0x1000_0000_0000_0000)
                by (nonlinear_arith);
        }
        Camera {
            top_left_corner: look_from.sub(&w).sub(&vs).sub(&us),
            vertical: vs.scale(2 * fx::ONE),
            horizontal: us.scale(2 * fx::ONE),
            look_from,
        }
    }

    /// The ray through the image-plane point at normalized coordinates.
    pub fn get_ray(&self, u: i64, v: i64) -> (r: Ray)
        requires
            self.wf(),
            0 <= u < fx::ONE,
            0 <= v < fx::ONE,
        ensures
            r == camera_get_ray_spec(*self, u as int, v as int),
            r.wf(),
    {
        proof {
            lemma_unit_scale_mag_vec(self.horizontal, u as int, 0x2_0000_0000_0000);
            lemma_unit_scale_mag_vec(self.vertical, v as int, 0x2_0000_0000_0000);
        }
        let d: Vec3 = self.top_left_corner.add(&self.horizontal.scale(u)).add(
            &self.vertical.scale(v),
        ).sub(&self.look_from);
        let lsq: i128 = d.length_squared_raw();
        let dir: Vec3 = if lsq >= MIN_DIR_SQ as i128 {
            d
        } else {
            Vec3 { x: 0, y: 0, z: fx::ONE }
        };
        Ray::new(self.look_from, dir)
    }
}

/// The mirror of one offline sample.
pub open spec fn offline_sample_spec(
    cam: Camera,
    g: VolumeGrid,
    i: int,
    j: int,
    w: int,
    h: int,
    state: u64,
) -> (Vec3, u64) {
    let d = square_draw_spec(state);
    let u = crate::render::pixel_coord_spec(i, d.0, w);
    let v = crate::render::pixel_coord_spec(j, d.1, h);
    let ray = camera_get_ray_spec(cam, u, v);
    (volume_color_spec(g, ray, offline_bg_spec()), d.2)
}

/// The mirror of an offline pixel's sample loop.
pub open spec fn offline_sum_spec(
    cam: Camera,
    g: VolumeGrid,
    i: int,
    j: int,
    w: int,
    h: int,
    spp: nat,
    s: nat,
    sum: (int, int, int),
    state: u64,
) -> ((int, int, int), u64)
    decreases spp - s,
{
    if s >= spp {
        (sum, state)
    } else {
        let one = offline_sample_spec(cam, g, i, j, w, h, state);
        offline_sum_spec(
            cam,
            g,
            i,
            j,
            w,
            h,
            spp,
            s + 1,
            (sum.0 + one.0.x, sum.1 + one.0.y, sum.2 + one.0.z),
            one.1,
        )
    }
}

/// The mirror of the offline frame, row-major.
pub open spec fn offline_frame_spec(
    cam: Camera,
    g: VolumeGrid,
    w: nat,
    h: nat,
    spp: nat,
    p: nat,
    acc: Seq<Color>,
    state: u64,
) -> (Seq<Color>, u64)
    decreases w * h - p,
{
    if p >= w * h || spp == 0 {
        (acc, state)
    } else {
        let i = p as int % (w as int);
        let j = p as int / (w as int);
        let r = offline_sum_spec(cam, g, i, j, w as int, h as int, spp, 0, (0, 0, 0), state);
        let sum = r.0;
        let col = Color {
            r: clamp_channel_spec(sum.0 / (spp as int)) as i64,
            g: clamp_channel_spec(sum.1 / (spp as int)) as i64,
            b: clamp_channel_spec(sum.2 / (spp as int)) as i64,
            a: fx::ONE,
        };
        offline_frame_spec(cam, g, w, h, spp, p + 1, acc.push(col), r.1)
    }
}

impl Camera {
    /// Render the field to an output frame: for every pixel, `spp`
    /// jittered samples are traced, averaged and clamped strictly below
    /// one. The buffer is a function of camera, field, shape and seed
    /// alone; the caller hands it to the presentation sink.
    pub fn render_to_out(
        &self,
        world: &VolumeGrid,
        width: usize,
        height: usize,
        samples_per_pixel: u32,
        seed: u64,
    ) -> (r: RenderView)
        requires
            self.wf(),
            world.wf(),
            1 <= width <= 4096,
            1 <= height <= 4096,
            1 <= samples_per_pixel <= 1024,
        ensures
            r.pixels@ == offline_frame_spec(
                *self,
                *world,
                width as nat,
                height as nat,
                samples_per_pixel as nat,
                0,
                Seq::<Color>::empty(),
                seed,
            ).0,
            r.width == width,
            r.height == height,
            r.wf(),
            forall|k: int|
                0 <= k < r.pixels@.len() ==> {
                    let c = #[trigger] r.pixels@[k];
                    0 <= c.r < fx::ONE && 0 <= c.g < fx::ONE && 0 <= c.b < fx::ONE && c.a
                        == fx::ONE
                },
    {
        let spp = samples_per_pixel;
        let mut rng = Rng::new(seed);
        let mut out: Vec<Color> = Vec::new();
        proof {
            assert((width as int) * (height as int) <= 4096 * 4096) by (nonlinear_arith)
                requires
                    1 <= width <= 4096,
                    1 <= height <= 4096,
            ;
        }
        let total: usize = width * height;
        let mut p: usize = 0;
        let ghost goal = offline_frame_spec(
            *self,
            *world,
            width as nat,
            height as nat,
            spp as nat,
            0,
            Seq::<Color>::empty(),
            seed,
        );
        let bg = Vec3 { x: 37487, y: 50594, z: 60358 };
        while p < total
            invariant
                self.wf(),
                world.wf(),
                bg == offline_bg_spec(),
                1 <= width <= 4096,
                1 <= height <= 4096,
                1 <= spp <= 1024,
                total == width * height,
                p <= total,
                out@.len() == p,
                goal == offline_frame_spec(
                    *self,
                    *world,
                    width as nat,
                    height as nat,
                    spp as nat,
                    p as nat,
                    out@,
                    rng.state,
                ),
                forall|k: int|
                    0 <= k < out@.len() ==> {
                        let c = #[trigger] out@[k];
                        0 <= c.r < fx::ONE && 0 <= c.g < fx::ONE && 0 <= c.b < fx::ONE && c.a
                            == fx::ONE
                    },
            decreases total - p,
        {
            let i: usize = p % width;
            let j: usize = p / width;
            proof {
                vstd::arithmetic::div_mod::lemma_fundamental_div_mod(p as int, width as int);
                vstd::arithmetic::div_mod::lemma_mod_bound(p as int, width as int);
                assert(j < height) by (nonlinear_arith)
                    requires
                        p as int == (width as int) * (j as int) + (i as int),
                        0 <= i as int,
                        (i as int) < width as int,
                        p < total,
                        total == (width as int) * (height as int),
                        width >= 1,
                        height >= 1,
                ;
            }
            let mut sx: i64 = 0;
            let mut sy: i64 = 0;
            let mut sz: i64 = 0;
            let mut s: u32 = 0;
            let ghost psum_goal = offline_sum_spec(
                *self,
                *world,
                i as int,
                j as int,
                width as int,
                height as int,
                spp as nat,
                0,
                (0, 0, 0),
                rng.state,
            );
            while s < spp
                invariant
                    self.wf(),
                    world.wf(),
                    bg == offline_bg_spec(),
                    1 <= width <= 4096,
                    1 <= height <= 4096,
                    1 <= spp <= 1024,
                    i < width,
                    j < height,
                    s <= spp,
                    -(s as int) * (RAD_MAX + 4 * fx::ONE) <= sx <= (s as int) * (RAD_MAX + 4
                        * fx::ONE),
                    -(s as int) * (RAD_MAX + 4 * fx::ONE) <= sy <= (s as int) * (RAD_MAX + 4
                        * fx::ONE),
                    -(s as int) * (RAD_MAX + 4 * fx::ONE) <= sz <= (s as int) * (RAD_MAX + 4
                        * fx::ONE),
                    psum_goal == offline_sum_spec(
                        *self,
                        *world,
                        i as int,
                        j as int,
                        width as int,
                        height as int,
                        spp as nat,
                        s as nat,
                        (sx as int, sy as int, sz as int),
                        rng.state,
                    ),
                decreases spp - s,
            {
                let (rx, ry): (i64, i64) = rand_in_square(&mut rng);
                proof {
                    crate::render::lemma_pixel_coord(i as int, rx as int, width as int);
                    crate::render::lemma_pixel_coord(j as int, ry as int, height as int);
                }
                let u: i64 = fx::floor_div(
                    (i as i128) * (fx::ONE as i128) + rx as i128,
                    width as i128,
                ) as i64;
                let v: i64 = fx::floor_div(
                    (j as i128) * (fx::ONE as i128) + ry as i128,
                    height as i128,
                ) as i64;
                let ray = self.get_ray(u, v);
                let c: Vec3 = crate::scene::volume_color(world, &ray, &bg);
                proof {
                    crate::render::lemma_sum_step(sx as int, c.x as int, s as int);
                    crate::render::lemma_sum_step(sy as int, c.y as int, s as int);
                    crate::render::lemma_sum_step(sz as int, c.z as int, s as int);
                }
                sx = sx + c.x;
                sy = sy + c.y;
                sz = sz + c.z;
                s = s + 1;
            }
            proof {
                assert(-(spp as int) * (RAD_MAX + 4 * fx::ONE) == -((spp as int) * (RAD_MAX + 4
                    * fx::ONE))) by (nonlinear_arith);
                fx::lemma_floor_div_range(
                    sx as int,
                    -(spp as int) * (RAD_MAX + 4 * fx::ONE),
                    (spp as int) * (RAD_MAX + 4 * fx::ONE),
                    spp as int,
                );
                fx::lemma_floor_div_range(
                    sy as int,
                    -(spp as int) * (RAD_MAX + 4 * fx::ONE),
                    (spp as int) * (RAD_MAX + 4 * fx::ONE),
                    spp as int,
                );
                fx::lemma_floor_div_range(
                    sz as int,
                    -(spp as int) * (RAD_MAX + 4 * fx::ONE),
                    (spp as int) * (RAD_MAX + 4 * fx::ONE),
                    spp as int,
                );
                crate::render::lemma_avg_band(spp as int);
            }
            let ax: i64 = fx::floor_div(sx as i128, spp as i128) as i64;
            let ay: i64 = fx::floor_div(sy as i128, spp as i128) as i64;
            let az: i64 = fx::floor_div(sz as i128, spp as i128) as i64;
            let col = Color {
                r: crate::render::clamp_channel(ax),
                g: crate::render::clamp_channel(ay),
                b: crate::render::clamp_channel(az),
                a: fx::ONE,
            };
            out.push(col);
            p = p + 1;
        }
        RenderView::new(width, height, out)
    }
}

/// Turn a frame into the byte triplets a raster encoder consumes, row
/// by row: each channel clamped strictly below one and scaled to the
/// byte range.
pub fn rgb_bytes(view: &RenderView) -> (r: Vec<u8>)
    requires
        view.wf(),
    ensures
        r@.len() == 3 * view.pixels@.len(),
        forall|q: int|
            0 <= q < view.pixels@.len() ==> #[trigger] r@[3 * q]
                == crate::render::channel_byte_spec(view.pixels@[q].r as int),
        forall|q: int|
            0 <= q < view.pixels@.len() ==> #[trigger] r@[3 * q + 1]
                == crate::render::channel_byte_spec(view.pixels@[q].g as int),
        forall|q: int|
            0 <= q < view.pixels@.len() ==> #[trigger] r@[3 * q + 2]
                == crate::render::channel_byte_spec(view.pixels@[q].b as int),
{
    let mut out: Vec<u8> = Vec::new();
    let mut k: usize = 0;
    let n: usize = view.pixels.len();
    while k < n
        invariant
            n == view.pixels@.len(),
            k <= n,
            out@.len() == 3 * k,
            forall|m: int|
                0 <= m < k ==> {
                    &&& #[trigger] out@[3 * m] == crate::render::channel_byte_spec(
                        view.pixels@[m].r as int,
                    )
                    &&& out@[3 * m + 1] == crate::render::channel_byte_spec(
                        view.pixels@[m].g as int,
                    )
                    &&& out@[3 * m + 2] == crate::render::channel_byte_spec(
                        view.pixels@[m].b as int,
                    )
                },
        decreases n - k,
    {
        let c: Color = view.pixels[k];
        let ghost pre = out@;
        let b0: u8 = crate::render::channel_byte(c.r);
        let b1: u8 = crate::render::channel_byte(c.g);
        let b2: u8 = crate::render::channel_byte(c.b);
        out.push(b0);
        out.push(b1);
        out.push(b2);
        proof {
            assert(out@ =~= pre.push(b0).push(b1).push(b2));
            assert forall|m: int| 0 <= m < k + 1 implies {
                &&& #[trigger] out@[3 * m] == crate::render::channel_byte_spec(
                    view.pixels@[m].r as int,
                )
                &&& out@[3 * m + 1] == crate::render::channel_byte_spec(view.pixels@[m].g as int)
                &&& out@[3 * m + 2] == crate::render::channel_byte_spec(view.pixels@[m].b as int)
            } by {
                if m < k {
                    assert(out@[3 * m] == pre[3 * m]);
                    assert(out@[3 * m + 1] == pre[3 * m + 1]);
                    assert(out@[3 * m + 2] == pre[3 * m + 2]);
                } else {
                    assert(out@[3 * m] == b0);
                    assert(out@[3 * m + 1] == b1);
                    assert(out@[3 * m + 2] == b2);
                }
            }
        }
        k = k + 1;
    }
    proof {
        assert forall|m: int| 0 <= m < view.pixels@.len() implies #[trigger] out@[3 * m]
            == crate::render::channel_byte_spec(view.pixels@[m].r as int) by {
            assert(0 <= m < k);
        }
        assert forall|m: int| 0 <= m < view.pixels@.len() implies #[trigger] out@[3 * m + 1]
            == crate::render::channel_byte_spec(view.pixels@[m].g as int) by {
            assert(0 <= m < k);
            assert(out@[3 * m] == crate::render::channel_byte_spec(view.pixels@[m].r as int));
        }
        assert forall|m: int| 0 <= m < view.pixels@.len() implies #[trigger] out@[3 * m + 2]
            == crate::render::channel_byte_spec(view.pixels@[m].b as int) by {
            assert(0 <= m < k);
            assert(out@[3 * m] == crate::render::channel_byte_spec(view.pixels@[m].r as int));
        }
    }
    out
}

/// The cross of the up vector with a unit-ish axis stays small.
proof fn lemma_vup_cross_bounds(vup: Vec3, w: Vec3)
    requires
        vup.bounded(4 * fx::ONE),
        w.bounded(fx::ONE + 1),
    ensures
        cross_spec(vup, w).bounded(0x9_0000),
{
    lemma_mixed_cross_comp(vup.y as int, w.z as int, vup.z as int, w.y as int);
    lemma_mixed_cross_comp(vup.z as int, w.x as int, vup.x as int, w.z as int);
    lemma_mixed_cross_comp(vup.x as int, w.y as int, vup.y as int, w.x as int);
}

proof fn lemma_mixed_cross_comp(a: int, b: int, c: int, d: int)
    requires
        -4 * fx::ONE <= a <= 4 * fx::ONE,
        -(fx::ONE + 1) <= b <= fx::ONE + 1,
        -4 * fx::ONE <= c <= 4 * fx::ONE,
        -(fx::ONE + 1) <= d <= fx::ONE + 1,
    ensures
        -0x9_0000 <= fx::mul_spec(a, b) - fx::mul_spec(c, d) <= 0x9_0000,
        i64::MIN <= fx::mul_spec(a, b) - fx::mul_spec(c, d) <= i64::MAX,
{
    assert(-(4 * 65536int) * 65537 <= a * b <= (4 * 65536int) * 65537 && -(4 * 65536int) * 65537
        <= c * d <= (4 * 65536int) * 65537) by (nonlinear_arith)
        requires
            -4 * 65536 <= a <= 4 * 65536,
            -65537 <= b <= 65537,
            -4 * 65536 <= c <= 4 * 65536,
            -65537 <= d <= 65537,
    ;
    fx::lemma_floor_div_range(
        a * b,
        -(4 * 65536int) * 65537,
        (4 * 65536int) * 65537,
        fx::ONE as int,
    );
    fx::lemma_floor_div_range(
        c * d,
        -(4 * 65536int) * 65537,
        (4 * 65536int) * 65537,
        fx::ONE as int,
    );
    assert(((4 * 65536int) * 65537) / 65536 == 262148 && (-(4 * 65536int) * 65537) / 65536
        == -262148) by (nonlinear_arith);
}

/// The cross of two unit-ish axes stays within a couple of units.
proof fn lemma_basis_cross_bounds(u: Vec3, w: Vec3)
    requires
        u.bounded(fx::ONE + 1),
        w.bounded(fx::ONE + 1),
    ensures
        cross_spec(u, w).bounded(0x2_0100),
{
    lemma_unit_cross_comp(u.y as int, w.z as int, u.z as int, w.y as int);
    lemma_unit_cross_comp(u.z as int, w.x as int, u.x as int, w.z as int);
    lemma_unit_cross_comp(u.x as int, w.y as int, u.y as int, w.x as int);
}

proof fn lemma_unit_cross_comp(a: int, b: int, c: int, d: int)
    requires
        -(fx::ONE + 1) <= a <= fx::ONE + 1,
        -(fx::ONE + 1) <= b <= fx::ONE + 1,
        -(fx::ONE + 1) <= c <= fx::ONE + 1,
        -(fx::ONE + 1) <= d <= fx::ONE + 1,
    ensures
        -0x2_0100 <= fx::mul_spec(a, b) - fx::mul_spec(c, d) <= 0x2_0100,
        i64::MIN <= fx::mul_spec(a, b) - fx::mul_spec(c, d) <= i64::MAX,
{
    assert(-65537int * 65537 <= a * b <= 65537int * 65537 && -65537int * 65537 <= c * d
        <= 65537int * 65537) by (nonlinear_arith)
        requires
            -65537 <= a <= 65537,
            -65537 <= b <= 65537,
            -65537 <= c <= 65537,
            -65537 <= d <= 65537,
    ;
    fx::lemma_floor_div_range(a * b, -65537int * 65537, 65537int * 65537, fx::ONE as int);
    fx::lemma_floor_div_range(c * d, -65537int * 65537, 65537int * 65537, fx::ONE as int);
    assert((65537int * 65537) / 65536 == 65538 && (-65537int * 65537) / 65536 == -65539)
        by (nonlinear_arith);
}

/// Scaling a bounded vector by a bounded non-negative factor: the raw
/// product bound also bounds the rounded result.
proof fn lemma_scale_mag(v: Vec3, s: int, cb: int, sb: int)
    requires
        v.bounded(cb),
        0 <= s <= sb,
        0 <= cb,
        0 <= sb,
        cb * sb <= 0x1000_0000_0000_0000,
    ensures
        -(cb * sb) <= fx::mul_spec(v.x as int, s) <= cb * sb,
        -(cb * sb) <= fx::mul_spec(v.y as int, s) <= cb * sb,
        -(cb * sb) <= fx::mul_spec(v.z as int, s) <= cb * sb,
        v.scale_spec(s).bounded(cb * sb),
{
    lemma_scale_mag_comp(v.x as int, s, cb, sb);
    lemma_scale_mag_comp(v.y as int, s, cb, sb);
    lemma_scale_mag_comp(v.z as int, s, cb, sb);
}

proof fn lemma_scale_mag_comp(c: int, s: int, cb: int, sb: int)
    requires
        -cb <= c <= cb,
        0 <= s <= sb,
        0 <= cb,
        0 <= sb,
        cb * sb <= 0x1000_0000_0000_0000,
    ensures
        -(cb * sb) <= fx::mul_spec(c, s) <= cb * sb,
{
    assert(-(cb * sb) <= c * s <= cb * sb) by (nonlinear_arith)
        requires
            -cb <= c <= cb,
            0 <= s <= sb,
            0 <= cb,
    ;
    fx::lemma_div_mag_bound(c * s, fx::ONE as int, cb * sb);
}

/// Doubling a bounded span vector is exact.
proof fn lemma_double(v: Vec3, b: int)
    requires
        v.bounded(b),
        0 <= b <= 0x1000_0000_0000_0000,
    ensures
        -2 * b <= fx::mul_spec(v.x as int, 2 * (fx::ONE as int)) <= 2 * b,
        -2 * b <= fx::mul_spec(v.y as int, 2 * (fx::ONE as int)) <= 2 * b,
        -2 * b <= fx::mul_spec(v.z as int, 2 * (fx::ONE as int)) <= 2 * b,
{
    lemma_double_comp(v.x as int, b);
    lemma_double_comp(v.y as int, b);
    lemma_double_comp(v.z as int, b);
}

proof fn lemma_double_comp(c: int, b: int)
    requires
        -b <= c <= b,
        0 <= b <= 0x1000_0000_0000_0000,
    ensures
        fx::mul_spec(c, 2 * (fx::ONE as int)) == 2 * c,
        -2 * b <= fx::mul_spec(c, 2 * (fx::ONE as int)) <= 2 * b,
{
    assert(c * (2 * (fx::ONE as int)) == (fx::ONE as int) * (2 * c)) by (nonlinear_arith);
    vstd::arithmetic::div_mod::lemma_div_multiples_vanish(2 * c, fx::ONE as int);
}

/// Scaling a bounded span by a unit-range coordinate keeps its bound.
proof fn lemma_unit_scale_mag_vec(v: Vec3, t: int, b: int)
    requires
        v.bounded(b),
        0 <= t <= fx::ONE,
        0 <= b <= 0x1000_0000_0000_0000,
    ensures
        -b <= fx::mul_spec(v.x as int, t) <= b,
        -b <= fx::mul_spec(v.y as int, t) <= b,
        -b <= fx::mul_spec(v.z as int, t) <= b,
{
    lemma_unit_scale_mag(v.x as int, t, b);
    lemma_unit_scale_mag(v.y as int, t, b);
    lemma_unit_scale_mag(v.z as int, t, b);
}

proof fn lemma_unit_scale_mag(c: int, t: int, b: int)
    requires
        -b <= c <= b,
        0 <= t <= fx::ONE,
        0 <= b <= 0x1000_0000_0000_0000,
    ensures
        -b <= fx::mul_spec(c, t) <= b,
{
    assert(-(b * 65536) <= c * t <= b * 65536) by (nonlinear_arith)
        requires
            -b <= c <= b,
            0 <= t <= 65536,
            0 <= b,
    ;
    fx::lemma_floor_div_range(c * t, -(b * 65536), b * 65536, fx::ONE as int);
    vstd::arithmetic::div_mod::lemma_div_multiples_vanish(b, fx::ONE as int);
    vstd::arithmetic::div_mod::lemma_div_multiples_vanish(-b, fx::ONE as int);
    assert(b * 65536 == (fx::ONE as int) * b && -(b * 65536) == (fx::ONE as int) * (-b))
        by (nonlinear_arith);
}

/// The field-of-view conversion lands inside the tangent's domain.
proof fn lemma_rad_in_tan_domain(vfov: int)
    requires
        0 < vfov <= 180 * fx::ONE,
    ensures
        0 <= fx::div_spec(fx::mul_spec(vfov, fx::PI as int), 360 * (fx::ONE as int)) <= 102943,
        i64::MIN <= fx::mul_spec(vfov, fx::PI as int) <= i64::MAX,
        i64::MIN <= fx::div_spec(fx::mul_spec(vfov, fx::PI as int), 360 * (fx::ONE as int))
            <= i64::MAX,
{
    crate::grid::lemma_scaled_mul(vfov, fx::PI as int, 180 * (fx::ONE as int), fx::PI as int);
    let m = fx::mul_spec(vfov, fx::PI as int);
    assert(m <= 37059660) by (nonlinear_arith)
        requires
            m * (fx::ONE as int) <= (180 * (fx::ONE as int)) * (fx::PI as int),
            fx::ONE == 65536,
            fx::PI == 205887,
    ;
    assert(0 <= m * (fx::ONE as int) <= 37059660int * 65536) by (nonlinear_arith)
        requires
            0 <= m <= 37059660,
            fx::ONE == 65536,
    ;
    fx::lemma_floor_div_range(
        m * (fx::ONE as int),
        0,
        37059660int * 65536,
        360 * (fx::ONE as int),
    );
    assert((37059660int * 65536) / (360int * 65536) == 102943 && 0int / (360int * 65536) == 0)
        by (nonlinear_arith);
}

} // verus!
