//! Ray-geometry behaviour: the sphere scenarios, the slab test and its
//! paired form, and the box algebra.

use rayer::fixed::{ONE, SCALE, HALF};
use rayer::vec3::Vec3;
use rayer::ray::Ray;
use rayer::aabb::AABB;
use rayer::sphere::Sphere;
use rayer::texture::Texture;
use rayer::material::{Material, Lambertian};
use rayer::color::Rgb;
use rand_xoshiro::rand_core::{Rng, SeedableRng};

fn fx(x: f64) -> i64 {
    (x * SCALE as f64).round() as i64
}

fn v(x: f64, y: f64, z: f64) -> Vec3 {
    Vec3 { x: fx(x), y: fx(y), z: fx(z) }
}

fn grey_texture() -> Texture {
    Texture::Constant(Material::Lambertian(Lambertian::new(Rgb::new(fx(0.5), fx(0.5), fx(0.5)))))
}

#[test]
fn test_hit() {
    let sphere = Sphere::new(v(0.0, 0.0, 0.0), fx(1.0), grey_texture());
    let ray = Ray::new(v(-2.0, 0.0, 0.0), v(1.0, 0.0, 0.0), fx(500.0), 0);
    let res = sphere.hit(ray, 0, 1000 * SCALE);
    match res {
        None => panic!("Expected a hit"),
        Some(hit) => {
            assert_eq!(hit.t, fx(1.0));
            assert_eq!(hit.p, v(-1.0, 0.0, 0.0));
            assert_eq!(hit.normal, v(-1.0, 0.0, 0.0));
            assert_eq!((hit.u, hit.v), (0, HALF));
        }
    }
    let ray = Ray::new(v(1.5, 0.0, 0.0), v(-1.0, 0.0, 0.0), fx(500.0), 0);
    let res = sphere.hit(ray, 0, 1000 * SCALE);
    match res {
        None => panic!("Expected a hit"),
        Some(hit) => {
            assert_eq!(hit.t, fx(0.5));
            assert_eq!(hit.p, v(1.0, 0.0, 0.0));
            assert_eq!(hit.normal, v(1.0, 0.0, 0.0));
            assert_eq!((hit.u, hit.v), (HALF, HALF));
        }
    }
    let ray = Ray::new(v(0.0, 3.0, 0.0), v(0.0, -1.0, 0.0), fx(500.0), 0);
    let res = sphere.hit(ray, 0, 1000 * SCALE);
    match res {
        None => panic!("Expected a hit"),
        Some(hit) => {
            assert_eq!(hit.t, fx(2.0));
            assert_eq!(hit.p, v(0.0, 1.0, 0.0));
            assert_eq!(hit.normal, v(0.0, 1.0, 0.0));
            assert_eq!((hit.u, hit.v), (HALF, ONE));
        }
    }
}

#[test]
fn test_aabb_hit_interval() {
    let aabb = AABB { low: v(-1.0, -1.0, -1.0), high: v(1.0, 1.0, 1.0) };
    let ray = Ray::new(v(-3.0, 0.0, 0.0), v(1.0, 0.0, 0.0), fx(500.0), 0);
    assert_eq!(aabb.intersects(ray, 7, i64::MAX), Some(fx(2.0)));
}

#[test]
fn test_aabb_miss() {
    let aabb = AABB { low: v(-3.0, -3.0, -3.0), high: v(-2.0, -2.0, -2.0) };
    let ray = Ray::new(v(-3.0, 0.0, 0.0), v(1.0, 0.0, 0.0), fx(500.0), 0);
    assert_eq!(aabb.intersects(ray, 7, i64::MAX), None);
}

#[test]
fn test_empty_aabb_never_hit() {
    let rays = [
        Ray::new(v(-3.0, 0.0, 0.0), v(1.0, 0.0, 0.0), fx(500.0), 0),
        Ray::new(v(0.0, 0.0, 0.0), v(0.3, -0.2, 0.9), fx(500.0), 0),
        Ray::new(v(5.0, 5.0, 5.0), v(0.0, 0.0, 0.0), fx(500.0), 0),
    ];
    for ray in rays.iter() {
        assert_eq!(AABB::empty().intersects(*ray, 0, i64::MAX), None);
    }
}

#[test]
fn test_empty_merge_identity() {
    let b = AABB { low: v(-1.5, 0.25, -3.0), high: v(2.0, 0.5, 7.0) };
    assert_eq!(AABB::empty().merge(b), b);
    assert_eq!(b.merge(AABB::empty()), b);
}

#[test]
fn intersect_2_equivalence() {
    let mut rng = rand_xoshiro::Xoshiro256Plus::seed_from_u64(42);
    let mut unit = |r: &mut rand_xoshiro::Xoshiro256Plus| -> i64 {
        (r.next_u64() % (2 * ONE as u64 + 1)) as i64 - ONE
    };
    let ray = Ray::new(v(-1.0, -1.0, -1.0), v(1.0, 1.0, 1.0), fx(500.0), 0);
    for _ in 0..1000 {
        let lx = unit(&mut rng);
        let ly = unit(&mut rng);
        let lz = unit(&mut rng);
        let a = AABB {
            low: Vec3 { x: lx, y: ly, z: lz },
            high: Vec3 {
                x: lx + (rng.next_u64() % ONE as u64) as i64,
                y: ly + (rng.next_u64() % ONE as u64) as i64,
                z: lz + (rng.next_u64() % ONE as u64) as i64,
            },
        };
        let mx = unit(&mut rng);
        let my = unit(&mut rng);
        let mz = unit(&mut rng);
        let b = AABB {
            low: Vec3 { x: mx, y: my, z: mz },
            high: Vec3 {
                x: mx + (rng.next_u64() % ONE as u64) as i64,
                y: my + (rng.next_u64() % ONE as u64) as i64,
                z: mz + (rng.next_u64() % ONE as u64) as i64,
            },
        };
        let t_min = 7;
        let t_max = i64::MAX;
        let res_1 = a.intersects(ray, t_min, t_max);
        let res_2 = b.intersects(ray, t_min, t_max);
        assert_eq!((res_1, res_2), a.intersects_2(&b, ray, t_min, t_max));
    }
}
