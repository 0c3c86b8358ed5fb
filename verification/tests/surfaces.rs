//! Spheres, fog and the bounding-volume hierarchy against a brute-force
//! scan.

use strelka::hittable::bvh::{Node, BVH};
use strelka::hittable::fog::Fog;
use strelka::hittable::matte_sphere::MatteSphere;
use strelka::hittable::{hit_list, HittableSurfaces};
use strelka::interval::{Interval, INF};
use strelka::ray::Ray;
use strelka::util::Rng;
use strelka::vec3::Vec3;

const ONE: i64 = 65536;

fn sphere(x: i64, y: i64, z: i64, r: i64) -> HittableSurfaces {
    HittableSurfaces::MatteSphere(MatteSphere::new(
        Vec3::new(x, y, z),
        r,
        Vec3::new(ONE / 2, ONE / 4, ONE / 8),
    ))
}

#[test]
fn sphere_center_ray_hits_with_configured_attenuation() {
    let s = MatteSphere::new(Vec3::new(0, 0, 0), ONE, Vec3::new(ONE / 2, ONE / 4, ONE / 8));
    let ray = Ray::new(Vec3::new(0, 0, 3 * ONE), Vec3::new(0, 0, -ONE));
    let mut rng = Rng::new(7);
    let rec = s.hit(&ray, &Interval::new(66, INF), &mut rng).expect("center ray must hit");
    assert_eq!(rec.attenuation, Vec3::new(ONE / 2, ONE / 4, ONE / 8));
    // near root at two units out
    assert!(rec.t.min >= 2 * ONE - 32 && rec.t.min <= 2 * ONE + 32, "t = {}", rec.t.min);
}

#[test]
fn sphere_miss_returns_none() {
    let s = MatteSphere::new(Vec3::new(0, 0, 0), ONE, Vec3::new(ONE / 2, ONE / 2, ONE / 2));
    let ray = Ray::new(Vec3::new(5 * ONE, 0, 3 * ONE), Vec3::new(0, 0, -ONE));
    let mut rng = Rng::new(7);
    assert!(s.hit(&ray, &Interval::new(66, INF), &mut rng).is_none());
}

#[test]
fn sphere_bbox_is_center_plus_minus_radius() {
    let s = MatteSphere::new(Vec3::new(ONE, 2 * ONE, 3 * ONE), ONE, Vec3::new(0, 0, 0));
    let b = s.get_bbox().unwrap();
    assert_eq!(b.min.x, 0);
    assert_eq!(b.min.y, ONE);
    assert_eq!(b.min.z, 2 * ONE);
    assert_eq!(b.max.x, 2 * ONE);
    assert_eq!(b.max.y, 3 * ONE);
    assert_eq!(b.max.z, 4 * ONE);
}

#[test]
fn bvh_of_one_surface_is_a_leaf_with_its_box() {
    let list = vec![sphere(0, 0, 0, ONE)];
    let expected = list[0].get_bbox().unwrap();
    let bvh = BVH::init_from_vec(list);
    assert_eq!(bvh.bbox, expected);
    match bvh.node {
        Node::Leaf(_) => {}
        Node::Branch { .. } => panic!("one surface must make a leaf"),
    }
}

#[test]
fn bvh_of_two_surfaces_is_a_branch_of_leaves() {
    let list = vec![sphere(-2 * ONE, 0, 0, ONE), sphere(2 * ONE, 0, 0, ONE)];
    let bvh = BVH::init_from_vec(list);
    match bvh.node {
        Node::Branch { left, right } => {
            assert!(matches!(left.node, Node::Leaf(_)));
            assert!(matches!(right.node, Node::Leaf(_)));
        }
        Node::Leaf(_) => panic!("two surfaces must make a branch"),
    }
}

#[test]
fn bvh_and_linear_scan_agree_on_nearest_hit() {
    let mk = || {
        vec![
            sphere(-3 * ONE, 0, -2 * ONE, ONE),
            sphere(0, 0, 0, ONE),
            sphere(3 * ONE, ONE, 2 * ONE, ONE),
            sphere(0, -2 * ONE, 4 * ONE, ONE),
        ]
    };
    let world = mk();
    let bvh = BVH::init_from_vec(mk());
    let rays = [
        (Vec3::new(0, 0, 10 * ONE), Vec3::new(0, 0, -ONE)),
        (Vec3::new(-3 * ONE, 0, 10 * ONE), Vec3::new(0, 0, -ONE)),
        (Vec3::new(10 * ONE, ONE, 2 * ONE), Vec3::new(-ONE, 0, 0)),
        (Vec3::new(0, 10 * ONE, 0), Vec3::new(0, -ONE, 0)),
        (Vec3::new(0, 0, 10 * ONE), Vec3::new(ONE / 8, 0, -ONE)),
    ];
    for (o, d) in rays {
        let ray = Ray::new(o, d);
        let mut rng_a = Rng::new(11);
        let mut rng_b = Rng::new(11);
        let lin = hit_list(&world, &ray, &Interval::new(66, INF), &mut rng_a);
        let acc = bvh.hit(&ray, &Interval::new(66, INF), &mut rng_b);
        match (lin, acc) {
            (None, None) => {}
            (Some(a), Some(b)) => {
                assert_eq!(a.t.min, b.t.min, "nearest parameter must agree");
            }
            (a, b) => panic!("hit disagreement: {:?} vs {:?}", a.map(|r| r.t.min), b.map(|r| r.t.min)),
        }
    }
}

#[test]
fn fog_with_unit_density_passes_this_ray() {
    // at the smallest density the drawn flight length almost always
    // overshoots a two-unit segment
    let fog = Fog::new(sphere(0, 0, 0, ONE), 1);
    let ray = Ray::new(Vec3::new(0, 0, 3 * ONE), Vec3::new(0, 0, -ONE));
    let mut rng = Rng::new(3);
    assert!(fog.hit(&ray, &Interval::new(66, INF), &mut rng).is_none());
}

#[test]
fn fog_with_full_density_scatters_this_ray() {
    let fog = Fog::new(sphere(0, 0, 0, ONE), ONE);
    let ray = Ray::new(Vec3::new(0, 0, 3 * ONE), Vec3::new(0, 0, -ONE));
    let mut rng = Rng::new(3);
    let rec = fog.hit(&ray, &Interval::new(66, INF), &mut rng).expect("dense fog must scatter");
    // the event lies inside the container segment
    assert!(rec.t.min >= 2 * ONE - 64 && rec.t.min <= 4 * ONE + 64, "t = {}", rec.t.min);
}

#[test]
fn fog_density_beyond_one_scatters_immediately() {
    // the rate is unbounded above; far beyond one per unit the drawn
    // flight is at most one unit, so the event hugs the entry
    let fog = Fog::new(sphere(0, 0, 0, ONE), 1000 * ONE);
    let ray = Ray::new(Vec3::new(0, 0, 3 * ONE), Vec3::new(0, 0, -ONE));
    let mut rng = Rng::new(3);
    let rec = fog.hit(&ray, &Interval::new(66, INF), &mut rng).expect("a dense medium scatters");
    assert!(rec.t.min >= 2 * ONE - 64 && rec.t.min <= 2 * ONE + 2 * ONE, "t = {}", rec.t.min);
}

#[test]
fn fog_bbox_is_the_container_box() {
    let inner = sphere(0, 0, 0, ONE);
    let expected = inner.get_bbox().unwrap();
    let fog = Fog::new(inner, ONE / 2);
    assert_eq!(fog.get_bbox().unwrap(), expected);
}

#[test]
fn sky_gradient_matches_the_analytic_blend() {
    let world: Vec<HittableSurfaces> = Vec::new();
    let ray = Ray::new(Vec3::new(0, 0, 0), Vec3::new(0, ONE, 0));
    let mut rng = Rng::new(5);
    let c = ray.get_color(8, &world, &mut rng);
    // expected: t = (dir.y + 1) / 2, top * t + bottom * (1 - t)
    let t = (ray.direction.y + ONE) / 2;
    let blend = |top: i64, bottom: i64| -> i64 {
        let a = ((top as i128) * (t as i128)).div_euclid(ONE as i128) as i64;
        let b = ((bottom as i128) * ((ONE - t) as i128)).div_euclid(ONE as i128) as i64;
        a + b
    };
    assert_eq!(c.x, blend(52429, 32768));
    assert_eq!(c.y, blend(52429, 32768));
    assert_eq!(c.z, blend(58982, 32768));
}

#[test]
fn depth_zero_returns_the_sentinel() {
    let world: Vec<HittableSurfaces> = Vec::new();
    let ray = Ray::new(Vec3::new(0, 0, 0), Vec3::new(0, 0, ONE));
    let mut rng = Rng::new(5);
    let c = ray.get_color(0, &world, &mut rng);
    assert_eq!(c, Vec3::new(ONE, 0, 0));
}
