//! The density field, both render loops and the packed static grid on
//! concrete values.

use strelka::camera::{rgb_bytes, Camera};
use strelka::grid::VolumeGrid;
use strelka::interval::Interval;
use strelka::ray::Ray;
use strelka::render::{
    apply_settings, channel_byte, clamp_channel, render_frame, Color, RenderSettings, RenderView,
};
use strelka::scene::camera::Camera as MatrixCamera;
use strelka::scene::Scene;
use strelka::vec3::Vec3;
use strelka::volume_grid::{PackedBoolArray, VolumeGridStatic};

const ONE: i64 = 65536;

fn vacuum_grid() -> VolumeGrid {
    VolumeGrid::build_from_vdb_grid((-2, -2, -2), (2, 2, 2), &Vec::new(), ONE / 2)
}

fn occupied_grid() -> VolumeGrid {
    let cells = vec![(0i64, 0i64, 0i64), (1i64, 0i64, 0i64), (0i64, 1i64, 1i64)];
    VolumeGrid::build_from_vdb_grid((-2, -2, -2), (2, 2, 2), &cells, ONE / 2)
}

#[test]
fn built_grid_has_the_listed_cells_and_no_others() {
    let g = occupied_grid();
    // lattice indices are shifted by the extent corner (-2,-2,-2)
    assert_eq!(g.weights[2][2][2], Some(ONE / 2));
    assert_eq!(g.weights[3][2][2], Some(ONE / 2));
    assert_eq!(g.weights[2][3][3], Some(ONE / 2));
    assert_eq!(g.weights[0][0][0], None);
    assert_eq!(g.weights[4][4][4], None);
    assert_eq!(g.weights.len(), 5);
    for row in &g.weights {
        assert_eq!(row.len(), 5);
        for col in row {
            assert_eq!(col.len(), 5);
        }
    }
    assert_eq!(g.shift, Vec3::new(2 * ONE, 2 * ONE, 2 * ONE));
    assert_eq!(g.bbox.min, Vec3::new(-2 * ONE, -2 * ONE, -2 * ONE));
    assert_eq!(g.bbox.max, Vec3::new(2 * ONE, 2 * ONE, 2 * ONE));
}

#[test]
fn phase_is_positive_inside_the_anisotropy_band() {
    let mut g = vacuum_grid();
    for gg in [-(ONE - 0x1000), -ONE / 2, 0, ONE / 2, ONE - 0x1000] {
        g.g = gg;
        for cos in [-ONE, -ONE / 3, 0, ONE / 3, ONE] {
            assert!(g.phase(cos) > 0, "phase at g={gg}, cos={cos}");
        }
    }
}

#[test]
fn vacuum_medium_is_fully_transparent() {
    let g = vacuum_grid();
    let ray = Ray::new(Vec3::new(0, 0, 10 * ONE), Vec3::new(0, 0, -ONE));
    match g.get_color(&ray, 2) {
        None => {}
        Some(h) => {
            assert_eq!(h.transparency, ONE);
            assert_eq!(h.resulted_color, Vec3::new(0, 0, 0));
        }
    }
    // and a ray that crosses the box does sample it
    assert!(g.get_color(&ray, 2).is_some());
}

#[test]
fn occupied_medium_attenuates() {
    let g = occupied_grid();
    let ray = Ray::new(Vec3::new(0, 0, 10 * ONE), Vec3::new(0, 0, -ONE));
    let h = g.get_color(&ray, 2).expect("crossing ray samples the field");
    assert!(h.transparency < ONE, "transmittance {}", h.transparency);
    assert!(h.transparency >= 0);
}

#[test]
fn depth_zero_contributes_nothing() {
    let g = occupied_grid();
    let ray = Ray::new(Vec3::new(0, 0, 10 * ONE), Vec3::new(0, 0, -ONE));
    assert!(g.get_color(&ray, 0).is_none());
}

#[test]
fn missing_the_box_contributes_nothing() {
    let g = occupied_grid();
    let ray = Ray::new(Vec3::new(100 * ONE, 0, 10 * ONE), Vec3::new(0, 0, -ONE));
    assert!(g.get_color(&ray, 2).is_none());
}

#[test]
fn scene_color_composes_background_and_transmittance() {
    let scene = Scene::new(vacuum_grid(), Vec3::new(ONE / 2, ONE / 4, ONE / 8));
    // a miss keeps the plain background
    let miss = Ray::new(Vec3::new(100 * ONE, 0, 10 * ONE), Vec3::new(0, 0, -ONE));
    assert_eq!(scene.get_color(miss), Vec3::new(ONE / 2, ONE / 4, ONE / 8));
    // a vacuum sample keeps it too: transmittance one, radiance zero
    let cross = Ray::new(Vec3::new(0, 0, 10 * ONE), Vec3::new(0, 0, -ONE));
    let c = scene.get_color(cross);
    assert!((c.x - ONE / 2).abs() <= 1 && (c.y - ONE / 4).abs() <= 1 && (c.z - ONE / 8).abs() <= 1);
}

#[test]
fn rendering_twice_with_one_seed_is_identical() {
    let scene = Scene::new(occupied_grid(), Vec3::new(ONE / 2, ONE / 2, ONE / 2));
    let cam = MatrixCamera::new(
        Vec3::new(0, 0, 10 * ONE),
        Vec3::new(0, 0, 0),
        Vec3::new(0, ONE, 0),
        80 * ONE,
        ONE,
    );
    let a = render_frame(&scene, &cam, 8, 6, 2, 42);
    let b = render_frame(&scene, &cam, 8, 6, 2, 42);
    assert_eq!(a, b);
    let c = render_frame(&scene, &cam, 8, 6, 2, 43);
    assert_eq!(c.len(), 48);
}

#[test]
fn every_rendered_channel_is_clamped_below_one() {
    let scene = Scene::new(occupied_grid(), Vec3::new(3 * ONE, 3 * ONE, 3 * ONE));
    let cam = MatrixCamera::new(
        Vec3::new(0, 0, 10 * ONE),
        Vec3::new(0, 0, 0),
        Vec3::new(0, ONE, 0),
        80 * ONE,
        ONE,
    );
    let frame = render_frame(&scene, &cam, 6, 6, 2, 9);
    assert_eq!(frame.len(), 36);
    for c in &frame {
        assert!(0 <= c.r && c.r < ONE);
        assert!(0 <= c.g && c.g < ONE);
        assert!(0 <= c.b && c.b < ONE);
        assert_eq!(c.a, ONE);
    }
}

#[test]
fn offline_render_is_deterministic_and_clamped() {
    let g = occupied_grid();
    let cam = Camera::new(
        Vec3::new(0, 0, 10 * ONE),
        Vec3::new(0, 0, 0),
        Vec3::new(0, ONE, 0),
        80 * ONE,
        ONE,
    );
    let v1 = cam.render_to_out(&g, 8, 4, 2, 77);
    let v2 = cam.render_to_out(&g, 8, 4, 2, 77);
    assert_eq!(v1.pixels, v2.pixels);
    assert_eq!(v1.width, 8);
    assert_eq!(v1.height, 4);
    assert_eq!(v1.pixels.len(), 32);
    for c in &v1.pixels {
        assert!(0 <= c.r && c.r < ONE && 0 <= c.g && c.g < ONE && 0 <= c.b && c.b < ONE);
    }
    let bytes = rgb_bytes(&v1);
    assert_eq!(bytes.len(), 96);
}

#[test]
fn channel_conversion_hits_exact_values() {
    assert_eq!(clamp_channel(-5), 0);
    assert_eq!(clamp_channel(70000), 65529);
    assert_eq!(clamp_channel(123), 123);
    assert_eq!(channel_byte(0), 0);
    assert_eq!(channel_byte(ONE), 255);
    assert_eq!(channel_byte(2 * ONE), 255);
    assert_eq!(channel_byte(-7), 0);
    // half of one maps to floor(0.5 * 255.99)
    assert_eq!(channel_byte(ONE / 2), 127);
}

#[test]
fn settings_snapshot_is_taken_over() {
    let mut scene = Scene::new(vacuum_grid(), Vec3::new(0, 0, 0));
    let mut s = RenderSettings::default();
    s.background_color = Vec3::new(ONE, ONE / 2, 0);
    s.g = 1234;
    s.absorption = 100;
    s.scattering = 200;
    s.ray_marching_step = ONE / 2;
    apply_settings(&mut scene, &s);
    assert_eq!(scene.background, Vec3::new(ONE, ONE / 2, 0));
    assert_eq!(scene.grid.g, 1234);
    assert_eq!(scene.grid.absorption, 100);
    assert_eq!(scene.grid.scattering, 200);
    assert_eq!(scene.grid.step_size, ONE / 2);
    // the light color is brightened by 1.3
    assert_eq!(scene.grid.light_col.x, (65536i64 * 85197) >> 16);
}

#[test]
fn render_view_indexes_row_major() {
    let mut pixels = Vec::new();
    for i in 0..12i64 {
        pixels.push(Color::new(i, 0, 0, ONE));
    }
    let v = RenderView::new(4, 3, pixels);
    assert_eq!(v.pixel(0, 0).r, 0);
    assert_eq!(v.pixel(3, 0).r, 3);
    assert_eq!(v.pixel(0, 1).r, 4);
    assert_eq!(v.pixel(3, 2).r, 11);
}

#[test]
fn packed_array_lays_bytes_high_first() {
    let values: Vec<u8> = vec![0x11, 0x22, 0x33, 0x44, 0x55];
    let packed = PackedBoolArray::from_array(&values);
    assert_eq!(packed.data, vec![0x11223344u32, 0x55000000u32]);
    let exact: Vec<u8> = vec![1, 2, 3, 4];
    assert_eq!(PackedBoolArray::from_array(&exact).data, vec![0x01020304u32]);
    let empty: Vec<u8> = Vec::new();
    assert_eq!(PackedBoolArray::from_array(&empty).data, Vec::<u32>::new());
}

#[test]
fn static_grid_reports_extent_and_shift() {
    let values: Vec<u8> = vec![0; 27];
    let (st, words) = VolumeGridStatic::build_from_vdb_grid((-1, -1, -1), (1, 1, 1), &values);
    assert_eq!(st.size, (3, 3, 3));
    assert_eq!(st.shift, (1, 1, 1));
    assert_eq!(st.bbox.min, Vec3::new(0, 0, 0));
    assert_eq!(st.bbox.max, Vec3::new(2 * ONE, 2 * ONE, 2 * ONE));
    assert_eq!(words.len(), 7);
}

#[test]
fn matrix_camera_ray_starts_at_the_eye() {
    let cam = MatrixCamera::new(
        Vec3::new(0, 0, 10 * ONE),
        Vec3::new(0, 0, 0),
        Vec3::new(0, ONE, 0),
        80 * ONE,
        ONE,
    );
    let r = cam.get_ray(ONE / 2, ONE / 2);
    // the eye projected through the view transform stays near the origin column
    assert!(r.origin.x.abs() <= 16 && r.origin.y.abs() <= 16);
    // the direction is unit-ish
    let lsq = (r.direction.x as i128).pow(2) + (r.direction.y as i128).pow(2)
        + (r.direction.z as i128).pow(2);
    assert!((lsq - (ONE as i128) * (ONE as i128)).abs() <= 16 * ONE as i128);
}
