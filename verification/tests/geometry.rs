//! Intervals, boxes, rays and the fixed-point scalar helpers on
//! concrete values.

use strelka::aabb::Aabb;
use strelka::fx;
use strelka::interval::{Interval, INF};
use strelka::ray::Ray;
use strelka::vec3::Vec3;

const ONE: i64 = 65536;

#[test]
fn interval_operations_are_exact() {
    let a = Interval::new(2 * ONE, 5 * ONE);
    assert_eq!(a.size(), 3 * ONE);
    assert_eq!(a.clamp(ONE), 2 * ONE);
    assert_eq!(a.clamp(6 * ONE), 5 * ONE);
    assert_eq!(a.clamp(3 * ONE), 3 * ONE);
    assert!(a.contains(&(2 * ONE)));
    assert!(a.contains(&(5 * ONE)));
    assert!(!a.surrounds(2 * ONE));
    assert!(a.surrounds(3 * ONE));
    let b = Interval::new(4 * ONE, 9 * ONE);
    let c = a.intersect(&b);
    assert_eq!(c.min, 4 * ONE);
    assert_eq!(c.max, 5 * ONE);
    let r = Interval::ray();
    assert_eq!(r.min, 0);
    assert_eq!(r.max, INF);
}

#[test]
fn fixed_point_scalars_behave() {
    assert_eq!(fx::mul(2 * ONE, 3 * ONE), 6 * ONE);
    assert_eq!(fx::mul(ONE / 2, ONE / 2), ONE / 4);
    assert_eq!(fx::div(6 * ONE, 3 * ONE), 2 * ONE);
    assert_eq!(fx::sqrt_fx(4 * ONE), 2 * ONE);
    assert_eq!(fx::sqrt_fx(0), 0);
    assert_eq!(fx::exp_neg(0), ONE);
    let e1 = fx::exp_neg(ONE);
    // e^-1 is about 0.3679
    assert!(e1 > 23000 && e1 < 25500, "exp_neg(1) = {e1}");
    assert_eq!(fx::neg_ln(ONE), 0);
    let l2 = fx::neg_ln(ONE / 2);
    // -ln(1/2) is about 0.6931
    assert!(l2 > 44000 && l2 < 47000, "neg_ln(1/2) = {l2}");
    let t45 = fx::tan(51472);
    // tan of a quarter turn halved is one
    assert!(t45 > 63000 && t45 < 68000, "tan(pi/4) = {t45}");
}

#[test]
fn ray_direction_is_normalized() {
    let r = Ray::new(Vec3::new(0, 0, 0), Vec3::new(3 * ONE, 4 * ONE, 0));
    // length 5 scales down to (3/5, 4/5, 0)
    assert_eq!(r.direction.x, 3 * ONE / 5);
    assert_eq!(r.direction.y, 4 * ONE / 5);
    assert_eq!(r.direction.z, 0);
    let lsq = (r.direction.x as i128) * (r.direction.x as i128)
        + (r.direction.y as i128) * (r.direction.y as i128)
        + (r.direction.z as i128) * (r.direction.z as i128);
    let unit = (ONE as i128) * (ONE as i128);
    assert!((lsq - unit).abs() <= 15 * ONE as i128, "length off by {}", lsq - unit);
}

#[test]
fn ray_at_walks_the_direction() {
    let r = Ray::new(Vec3::new(ONE, 0, 0), Vec3::new(0, ONE, 0));
    let p = r.at(2 * ONE);
    assert_eq!(p.x, ONE);
    assert_eq!(p.y, 2 * ONE);
    assert_eq!(p.z, 0);
}

#[test]
fn aabb_hit_crossing_ray_returns_window() {
    let b = Aabb::new(Vec3::new(-ONE, -ONE, -ONE), Vec3::new(ONE, ONE, ONE));
    let r = Ray::new(Vec3::new(0, 0, 3 * ONE), Vec3::new(0, 0, -ONE));
    let w = b.hit(&r, &Interval::ray()).expect("crossing ray must hit");
    // analytic entry at two units, exit at four
    assert!(w.min >= 2 * ONE - 8 && w.min <= 2 * ONE + 8, "entry {}", w.min);
    assert!(w.max >= 4 * ONE - 8 && w.max <= 4 * ONE + 8, "exit {}", w.max);
    assert!(w.min < w.max);
}

#[test]
fn aabb_hit_missing_ray_returns_none() {
    let b = Aabb::new(Vec3::new(-ONE, -ONE, -ONE), Vec3::new(ONE, ONE, ONE));
    let r = Ray::new(Vec3::new(5 * ONE, 0, 3 * ONE), Vec3::new(0, 0, -ONE));
    assert!(b.hit(&r, &Interval::ray()).is_none());
}

#[test]
fn aabb_hit_parallel_ray_inside_slab() {
    let b = Aabb::new(Vec3::new(-ONE, -ONE, -ONE), Vec3::new(ONE, ONE, ONE));
    // runs along the x axis at y = z = 0: inside both parallel slabs
    let r = Ray::new(Vec3::new(-3 * ONE, 0, 0), Vec3::new(ONE, 0, 0));
    assert!(b.hit(&r, &Interval::ray()).is_some());
    // runs along the x axis well above the box
    let r2 = Ray::new(Vec3::new(-3 * ONE, 5 * ONE, 0), Vec3::new(ONE, 0, 0));
    assert!(b.hit(&r2, &Interval::ray()).is_none());
}

#[test]
fn aabb_unit_contains_both() {
    let a = Aabb::new(Vec3::new(-ONE, 0, 0), Vec3::new(ONE, ONE, ONE));
    let b = Aabb::new(Vec3::new(0, -ONE, 0), Vec3::new(2 * ONE, ONE, 3 * ONE));
    let u = Aabb::unit(&a, &b);
    assert_eq!(u.min.x, -ONE);
    assert_eq!(u.min.y, -ONE);
    assert_eq!(u.min.z, 0);
    assert_eq!(u.max.x, 2 * ONE);
    assert_eq!(u.max.y, ONE);
    assert_eq!(u.max.z, 3 * ONE);
}
