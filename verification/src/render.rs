//! The frame renderer: per-pixel multi-sample evaluation of the
//! volumetric scene, deterministic in the seed, every output channel
//! clamped strictly below one.

use vstd::prelude::*;
use crate::fx;
use crate::grid::{VolumeGrid, RAD_MAX};
use crate::scene::camera::{camera_ray_spec, Camera};
use crate::scene::{volume_color_spec, Scene};
use crate::util::{rand_in_square, square_draw_spec, Rng};
use crate::vec3::Vec3;

verus! {

/// The top of the output range: just below one, so scaling to a byte
/// range can never overflow.
pub const BORDER_MAX: i64 = 65529;

/// `255.99` at fixed-point scale: the byte conversion factor.
pub const BYTE_SCALE: i64 = 16776560;

/// One output pixel: fixed-point channels, each within `[0, ONE)`.
#[derive(Clone, Copy, PartialEq, Eq, Structural, Debug)]
pub struct Color {
    pub r: i64,
    pub g: i64,
    pub b: i64,
    pub a: i64,
}

impl Color {
    pub fn new(r: i64, g: i64, b: i64, a: i64) -> (c: Self)
        ensures
            c == (Color { r, g, b, a }),
    {
        Self { r, g, b, a }
    }
}

/// An output channel clamped into `[0, BORDER_MAX]`, strictly below one.
pub open spec fn clamp_channel_spec(c: int) -> int {
    if c < 0 {
        0
    } else if c > BORDER_MAX {
        BORDER_MAX as int
    } else {
        c
    }
}

pub fn clamp_channel(c: i64) -> (r: i64)
    ensures
        r == clamp_channel_spec(c as int),
        0 <= r < fx::ONE,
{
    if c < 0 {
        0
    } else if c > BORDER_MAX {
        BORDER_MAX
    } else {
        c
    }
}

/// The byte a clamped channel maps to: `floor(channel * 255.99)`.
pub open spec fn channel_byte_spec(c: int) -> int {
    (clamp_channel_spec(c) * (BYTE_SCALE as int)) / 0x1_0000_0000
}

pub fn channel_byte(c: i64) -> (r: u8)
    ensures
        r == channel_byte_spec(c as int),
        r <= 255,
{
    let cl: i64 = clamp_channel(c);
    proof {
        assert(0 <= cl as int * (BYTE_SCALE as int) <= 65529int * 16776560) by (nonlinear_arith)
            requires
                0 <= cl <= 65529,
                BYTE_SCALE == 16776560,
        ;
        fx::lemma_floor_div_range(
            cl as int * (BYTE_SCALE as int),
            0,
            65529int * 16776560,
            0x1_0000_0000,
        );
        assert((65529int * 16776560) / 0x1_0000_0000 == 255 && 0int / 0x1_0000_0000 == 0)
            by (nonlinear_arith);
    }
    fx::floor_div((cl as i128) * (BYTE_SCALE as i128), 0x1_0000_0000) as u8
}

/// A frame-boundary snapshot of the adjustable render parameters.
pub struct RenderSettings {
    pub background_color: Vec3,
    pub light_color: Vec3,
    pub g: i64,
    pub absorption: i64,
    pub scattering: i64,
    pub ray_marching_step: i64,
    pub spp: u32,
}

impl RenderSettings {
    pub open spec fn wf(self) -> bool {
        &&& self.background_color.bounded(4 * fx::ONE)
        &&& 0 <= self.background_color.x && 0 <= self.background_color.y && 0
            <= self.background_color.z
        &&& self.light_color.bounded(3 * fx::ONE)
        &&& 0 <= self.light_color.x && 0 <= self.light_color.y && 0 <= self.light_color.z
        &&& -fx::ONE < self.g < fx::ONE
        &&& 0 <= self.absorption <= fx::ONE
        &&& 0 <= self.scattering <= fx::ONE
        &&& 1 <= self.ray_marching_step <= 16 * fx::ONE
        &&& 1 <= self.spp <= 1024
    }
}

impl Default for RenderSettings {
    /// The parameters a fresh session starts with.
    fn default() -> (r: Self)
        ensures
            r.background_color == (Vec3 { x: 45875i64, y: 45875i64, z: 58982i64 }),
            r.light_color == (Vec3 { x: 65536i64, y: 58982i64, z: 58982i64 }),
            r.g == 6554 && r.absorption == 655 && r.scattering == 5243,
            r.ray_marching_step == 196608,
            r.spp == 1,
            r.wf(),
    {
        RenderSettings {
            background_color: Vec3 { x: 45875, y: 45875, z: 58982 },
            light_color: Vec3 { x: 65536, y: 58982, z: 58982 },
            g: 6554,
            absorption: 655,
            scattering: 5243,
            ray_marching_step: 196608,
            spp: 1,
        }
    }
}

/// `1.3` at fixed-point scale: how much the light color is brightened
/// when a settings snapshot is taken over.
pub const LIGHT_GAIN: i64 = 85197;

/// Copy a settings snapshot into the scene: the background directly,
/// the light color brightened, and the medium parameters one for one.
pub fn apply_settings(scene: &mut Scene, settings: &RenderSettings)
    requires
        old(scene).wf(),
        settings.wf(),
    ensures
        final(scene).wf(),
        final(scene).background == settings.background_color,
        final(scene).grid.light_col == settings.light_color.scale_spec(LIGHT_GAIN as int),
        final(scene).grid.g == settings.g,
        final(scene).grid.absorption == settings.absorption,
        final(scene).grid.scattering == settings.scattering,
        final(scene).grid.step_size == settings.ray_marching_step,
        final(scene).grid.weights == old(scene).grid.weights,
        final(scene).grid.bbox == old(scene).grid.bbox,
        final(scene).grid.light_dir == old(scene).grid.light_dir,
{
    proof {
        lemma_light_gain(settings.light_color.x as int);
        lemma_light_gain(settings.light_color.y as int);
        lemma_light_gain(settings.light_color.z as int);
    }
    scene.background = settings.background_color;
    scene.grid.light_col = settings.light_color.scale(LIGHT_GAIN);
    scene.grid.g = settings.g;
    scene.grid.absorption = settings.absorption;
    scene.grid.scattering = settings.scattering;
    scene.grid.step_size = settings.ray_marching_step;
    proof {
        assert forall|x: int, y: int, z: int|
            (#[trigger] crate::grid::cell_spec(scene.grid, x, y, z)) matches Some(w) ==> 0 <= w
                <= fx::ONE by {
            assert(crate::grid::cell_spec(scene.grid, x, y, z) == crate::grid::cell_spec(
                old(scene).grid,
                x,
                y,
                z,
            ));
        }
    }
}

/// Brightening a light channel by the fixed gain keeps it in band.
proof fn lemma_light_gain(c: int)
    requires
        0 <= c <= 3 * fx::ONE,
    ensures
        0 <= fx::mul_spec(c, LIGHT_GAIN as int) <= 4 * fx::ONE,
{
    crate::grid::lemma_scaled_mul(c, LIGHT_GAIN as int, 3 * (fx::ONE as int), LIGHT_GAIN as int);
    assert(fx::mul_spec(c, LIGHT_GAIN as int) <= 4 * fx::ONE) by (nonlinear_arith)
        requires
            fx::mul_spec(c, LIGHT_GAIN as int) * (fx::ONE as int) <= (3 * (fx::ONE as int)) * (
            LIGHT_GAIN as int),
    ;
}

/// A normalized pixel coordinate: the jittered index over the count.
pub open spec fn pixel_coord_spec(idx: int, jitter: int, count: int) -> int {
    (idx * (fx::ONE as int) + jitter) / count
}

/// The jittered coordinate stays inside the unit range.
pub proof fn lemma_pixel_coord(idx: int, jitter: int, count: int)
    requires
        0 <= idx < count,
        0 <= jitter < fx::ONE,
        count >= 1,
    ensures
        0 <= pixel_coord_spec(idx, jitter, count) < fx::ONE,
{
    let num = idx * (fx::ONE as int) + jitter;
    assert(0 <= num && num < count * (fx::ONE as int)) by (nonlinear_arith)
        requires
            num == idx * (fx::ONE as int) + jitter,
            0 <= idx < count,
            0 <= jitter < fx::ONE,
            fx::ONE == 65536,
    ;
    vstd::arithmetic::div_mod::lemma_fundamental_div_mod(num, count);
    vstd::arithmetic::div_mod::lemma_mod_bound(num, count);
    assert(0 <= num / count < fx::ONE) by (nonlinear_arith)
        requires
            num == count * (num / count) + num % count,
            0 <= num % count < count,
            0 <= num < count * (fx::ONE as int),
            count >= 1,
            fx::ONE == 65536,
    ;
}

/// The mirror of one sample: a jitter draw, the camera ray through the
/// jittered pixel coordinates, and the scene color along it.
pub open spec fn sample_spec(
    cam: Camera,
    g: VolumeGrid,
    bg: Vec3,
    i: int,
    j: int,
    w: int,
    h: int,
    state: u64,
) -> (Vec3, u64) {
    let d = square_draw_spec(state);
    let u = pixel_coord_spec(i, d.0, w);
    let v = pixel_coord_spec(j, d.1, h);
    let ray = camera_ray_spec(cam, u, v);
    (volume_color_spec(g, ray, bg), d.2)
}

/// The mirror of a pixel's sample loop: the running channel sums.
pub open spec fn pixel_sum_spec(
    cam: Camera,
    g: VolumeGrid,
    bg: Vec3,
    i: int,
    j: int,
    w: int,
    h: int,
    spp: nat,
    s: nat,
    sum: (int, int, int),
    state: u64,
) -> ((int, int, int), u64)
    decreases spp - s,
{
    if s >= spp {
        (sum, state)
    } else {
        let one = sample_spec(cam, g, bg, i, j, w, h, state);
        pixel_sum_spec(
            cam,
            g,
            bg,
            i,
            j,
            w,
            h,
            spp,
            s + 1,
            (sum.0 + one.0.x, sum.1 + one.0.y, sum.2 + one.0.z),
            one.1,
        )
    }
}

/// The mirror of the whole frame: pixels in row-major order, each the
/// clamped average of its samples.
pub open spec fn frame_spec(
    cam: Camera,
    g: VolumeGrid,
    bg: Vec3,
    w: nat,
    h: nat,
    spp: nat,
    p: nat,
    acc: Seq<Color>,
    state: u64,
) -> (Seq<Color>, u64)
    decreases w * h - p,
{
    if p >= w * h || spp == 0 {
        (acc, state)
    } else {
        let i = p as int % (w as int);
        let j = p as int / (w as int);
        let r = pixel_sum_spec(cam, g, bg, i, j, w as int, h as int, spp, 0, (0, 0, 0), state);
        let sum = r.0;
        let col = Color {
            r: clamp_channel_spec(sum.0 / (spp as int)) as i64,
            g: clamp_channel_spec(sum.1 / (spp as int)) as i64,
            b: clamp_channel_spec(sum.2 / (spp as int)) as i64,
            a: fx::ONE,
        };
        frame_spec(cam, g, bg, w, h, spp, p + 1, acc.push(col), r.1)
    }
}

/// One frame of the interactive renderer: `width * height` pixels, each
/// the average of `spp` jittered samples through the projective camera,
/// every channel clamped into `[0, ONE)`. The result is a function of
/// the arguments alone: the same scene, camera and seed give the same
/// buffer, bit for bit.
pub fn render_frame(
    scene: &Scene,
    camera: &Camera,
    width: usize,
    height: usize,
    spp: u32,
    seed: u64,
) -> (r: Vec<Color>)
    requires
        scene.wf(),
        camera.camera_to_world.wf(),
        1 <= width <= 4096,
        1 <= height <= 4096,
        1 <= spp <= 1024,
    ensures
        r@ == frame_spec(
            *camera,
            scene.grid,
            scene.background,
            width as nat,
            height as nat,
            spp as nat,
            0,
            Seq::<Color>::empty(),
            seed,
        ).0,
        r@.len() == width * height,
        forall|k: int|
            0 <= k < r@.len() ==> {
                let c = #[trigger] r@[k];
                0 <= c.r < fx::ONE && 0 <= c.g < fx::ONE && 0 <= c.b < fx::ONE && c.a == fx::ONE
            },
{
    let mut rng = Rng::new(seed);
    let mut out: Vec<Color> = Vec::new();
    proof {
        assert((width as int) * (height as int) <= 4096 * 4096) by (nonlinear_arith)
            requires
                1 <= width <= 4096,
                1 <= height <= 4096,
        ;
    }
    let total: usize = width * height;
    let mut p: usize = 0;
    let ghost goal = frame_spec(
        *camera,
        scene.grid,
        scene.background,
        width as nat,
        height as nat,
        spp as nat,
        0,
        Seq::<Color>::empty(),
        seed,
    );
    while p < total
        invariant
            scene.wf(),
            camera.camera_to_world.wf(),
            1 <= width <= 4096,
            1 <= height <= 4096,
            1 <= spp <= 1024,
            total == width * height,
            p <= total,
            out@.len() == p,
            goal == frame_spec(
                *camera,
                scene.grid,
                scene.background,
                width as nat,
                height as nat,
                spp as nat,
                p as nat,
                out@,
                rng.state,
            ),
            forall|k: int|
                0 <= k < out@.len() ==> {
                    let c = #[trigger] out@[k];
                    0 <= c.r < fx::ONE && 0 <= c.g < fx::ONE && 0 <= c.b < fx::ONE && c.a
                        == fx::ONE
                },
        decreases total - p,
    {
        let i: usize = p % width;
        let j: usize = p / width;
        proof {
            vstd::arithmetic::div_mod::lemma_fundamental_div_mod(p as int, width as int);
            vstd::arithmetic::div_mod::lemma_mod_bound(p as int, width as int);
            assert(j < height) by (nonlinear_arith)
                requires
                    p as int == (width as int) * (j as int) + (i as int),
                    0 <= i as int,
                    (i as int) < width as int,
                    p < total,
                    total == (width as int) * (height as int),
                    width >= 1,
                    height >= 1,
            ;
        }
        let mut sx: i64 = 0;
        let mut sy: i64 = 0;
        let mut sz: i64 = 0;
        let mut s: u32 = 0;
        let ghost psum_goal = pixel_sum_spec(
            *camera,
            scene.grid,
            scene.background,
            i as int,
            j as int,
            width as int,
            height as int,
            spp as nat,
            0,
            (0, 0, 0),
            rng.state,
        );
        while s < spp
            invariant
                scene.wf(),
                camera.camera_to_world.wf(),
                1 <= width <= 4096,
                1 <= height <= 4096,
                1 <= spp <= 1024,
                i < width,
                j < height,
                s <= spp,
                -(s as int) * (RAD_MAX + 4 * fx::ONE) <= sx <= (s as int) * (RAD_MAX + 4
                    * fx::ONE),
                -(s as int) * (RAD_MAX + 4 * fx::ONE) <= sy <= (s as int) * (RAD_MAX + 4
                    * fx::ONE),
                -(s as int) * (RAD_MAX + 4 * fx::ONE) <= sz <= (s as int) * (RAD_MAX + 4
                    * fx::ONE),
                psum_goal == pixel_sum_spec(
                    *camera,
                    scene.grid,
                    scene.background,
                    i as int,
                    j as int,
                    width as int,
                    height as int,
                    spp as nat,
                    s as nat,
                    (sx as int, sy as int, sz as int),
                    rng.state,
                ),
            decreases spp - s,
        {
            let ghost s_in = rng.state;
            let (rx, ry): (i64, i64) = rand_in_square(&mut rng);
            proof {
                lemma_pixel_coord(i as int, rx as int, width as int);
                lemma_pixel_coord(j as int, ry as int, height as int);
            }
            let u: i64 = fx::floor_div(
                (i as i128) * (fx::ONE as i128) + rx as i128,
                width as i128,
            ) as i64;
            let v: i64 = fx::floor_div(
                (j as i128) * (fx::ONE as i128) + ry as i128,
                height as i128,
            ) as i64;
            let ray = camera.get_ray(u, v);
            let c: Vec3 = scene.get_color(ray);
            proof {
                lemma_sum_step(sx as int, c.x as int, s as int);
                lemma_sum_step(sy as int, c.y as int, s as int);
                lemma_sum_step(sz as int, c.z as int, s as int);
            }
            sx = sx + c.x;
            sy = sy + c.y;
            sz = sz + c.z;
            s = s + 1;
        }
        proof {
            assert(-(spp as int) * (RAD_MAX + 4 * fx::ONE) == -((spp as int) * (RAD_MAX + 4
                * fx::ONE))) by (nonlinear_arith);
            fx::lemma_floor_div_range(
                sx as int,
                -(spp as int) * (RAD_MAX + 4 * fx::ONE),
                (spp as int) * (RAD_MAX + 4 * fx::ONE),
                spp as int,
            );
            fx::lemma_floor_div_range(
                sy as int,
                -(spp as int) * (RAD_MAX + 4 * fx::ONE),
                (spp as int) * (RAD_MAX + 4 * fx::ONE),
                spp as int,
            );
            fx::lemma_floor_div_range(
                sz as int,
                -(spp as int) * (RAD_MAX + 4 * fx::ONE),
                (spp as int) * (RAD_MAX + 4 * fx::ONE),
                spp as int,
            );
            lemma_avg_band(spp as int);
        }
        let ax: i64 = fx::floor_div(sx as i128, spp as i128) as i64;
        let ay: i64 = fx::floor_div(sy as i128, spp as i128) as i64;
        let az: i64 = fx::floor_div(sz as i128, spp as i128) as i64;
        let col = Color {
            r: clamp_channel(ax),
            g: clamp_channel(ay),
            b: clamp_channel(az),
            a: fx::ONE,
        };
        out.push(col);
        p = p + 1;
    }
    out
}

/// One more bounded sample keeps the channel sum inside its band.
pub proof fn lemma_sum_step(sum: int, c: int, s: int)
    requires
        0 <= s <= 1023,
        -s * (RAD_MAX + 4 * fx::ONE) <= sum <= s * (RAD_MAX + 4 * fx::ONE),
        -(RAD_MAX + 4 * fx::ONE) <= c <= RAD_MAX + 4 * fx::ONE,
    ensures
        -(s + 1) * (RAD_MAX + 4 * fx::ONE) <= sum + c <= (s + 1) * (RAD_MAX + 4 * fx::ONE),
        i64::MIN <= sum + c <= i64::MAX,
{
    let b = RAD_MAX + 4 * (fx::ONE as int);
    assert((s + 1) * b == s * b + b && -(s + 1) * b == -s * b - b && s * b <= 1023 * b && -s * b
        >= -1023 * b) by (nonlinear_arith)
        requires
            0 <= s <= 1023,
            b == RAD_MAX + 4 * (fx::ONE as int),
    ;
}

/// The per-pixel average stays far inside the scalar range.
pub proof fn lemma_avg_band(spp: int)
    requires
        1 <= spp <= 1024,
    ensures
        (spp * (RAD_MAX + 4 * fx::ONE)) / spp == RAD_MAX + 4 * fx::ONE,
        (-spp * (RAD_MAX + 4 * fx::ONE)) / spp == -(RAD_MAX + 4 * fx::ONE),
{
    vstd::arithmetic::div_mod::lemma_div_multiples_vanish(RAD_MAX + 4 * (fx::ONE as int), spp);
    vstd::arithmetic::div_mod::lemma_div_multiples_vanish(-(RAD_MAX + 4 * (fx::ONE as int)), spp);
    assert(spp * (RAD_MAX + 4 * (fx::ONE as int)) == spp * (RAD_MAX + 4 * (fx::ONE as int))
        && -spp * (RAD_MAX + 4 * (fx::ONE as int)) == spp * (-(RAD_MAX + 4 * (fx::ONE as int))))
        by (nonlinear_arith);
}

/// Rendering is a pure function of scene, camera, frame shape and seed:
/// two frames drawn from the same inputs are identical, bit for bit.
pub proof fn lemma_render_deterministic(
    b1: Seq<Color>,
    b2: Seq<Color>,
    cam: Camera,
    g: VolumeGrid,
    bg: Vec3,
    w: nat,
    h: nat,
    spp: nat,
    seed: u64,
)
    requires
        b1 == frame_spec(cam, g, bg, w, h, spp, 0, Seq::<Color>::empty(), seed).0,
        b2 == frame_spec(cam, g, bg, w, h, spp, 0, Seq::<Color>::empty(), seed).0,
    ensures
        b1 == b2,
{
}

/// A completed frame as handed to a presentation sink: its dimensions
/// and the row-major pixel buffer.
pub struct RenderView {
    pub width: usize,
    pub height: usize,
    pub pixels: Vec<Color>,
}

impl RenderView {
    /// The buffer covers the whole rectangle.
    pub open spec fn wf(self) -> bool {
        &&& 1 <= self.width
        &&& 1 <= self.height
        &&& self.pixels@.len() == self.width * self.height
    }

    pub fn new(width: usize, height: usize, pixels: Vec<Color>) -> (r: Self)
        requires
            1 <= width,
            1 <= height,
            pixels@.len() == width * height,
        ensures
            r.width == width,
            r.height == height,
            r.pixels == pixels,
            r.wf(),
    {
        Self { width, height, pixels }
    }

    /// The pixel at column `i` of row `j`.
    pub fn pixel(&self, i: usize, j: usize) -> (r: Color)
        requires
            self.wf(),
            i < self.width,
            j < self.height,
        ensures
            r == self.pixels@[j * self.width + i],
    {
        proof {
            assert((j as int) * (self.width as int) + (i as int) < (self.width as int) * (
            self.height as int)) by (nonlinear_arith)
                requires
                    0 <= i as int,
                    (i as int) < self.width as int,
                    0 <= j as int,
                    (j as int) < self.height as int,
            ;
            assert(self.pixels@.len() == (self.width as int) * (self.height as int));
        }
        let total: usize = self.pixels.len();
        proof {
            assert(j * self.width + i < total);
        }
        self.pixels[j * self.width + i]
    }
}

} // verus!
