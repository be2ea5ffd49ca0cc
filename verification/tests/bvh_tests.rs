//! Hierarchy behaviour: the node-count law, the selection
//! postcondition, and agreement between the hierarchy walk and a plain
//! linear scan over many random spheres.

use rayer::fixed::SCALE;
use rayer::vec3::Vec3;
use rayer::ray::Ray;
use rayer::sphere::Sphere;
use rayer::bvh::BVH;
use rayer::hitable_list::HitableList;
use rayer::primitive::Primitive;
use rayer::texture::Texture;
use rayer::material::{Material, Lambertian};
use rayer::color::Rgb;
use rand_xoshiro::rand_core::{Rng, SeedableRng};
use rand_xoshiro::Xoshiro256Plus;

fn fx(x: f64) -> i64 {
    (x * SCALE as f64).round() as i64
}

fn grey_texture() -> Texture {
    Texture::Constant(Material::Lambertian(Lambertian::new(Rgb::new(fx(0.5), fx(0.5), fx(0.5)))))
}

fn unit_coord(rng: &mut Xoshiro256Plus) -> i64 {
    (rng.next_u64() % (2 * SCALE as u64 + 1)) as i64 - SCALE
}

fn random_spheres(n: usize, seed: u64) -> Vec<Primitive> {
    let mut rng = Xoshiro256Plus::seed_from_u64(seed);
    let mut items = Vec::new();
    for _ in 0..n {
        let center = Vec3 {
            x: unit_coord(&mut rng),
            y: unit_coord(&mut rng),
            z: unit_coord(&mut rng),
        };
        items.push(Primitive::Sphere(Sphere::new(center, fx(0.01), grey_texture())));
    }
    items
}

#[test]
fn test_select() {
    let n = 1000;
    let split_location = n / 2;
    let mut rng = Xoshiro256Plus::seed_from_u64(3);
    for _ in 0..100 {
        let mut x: Vec<u64> = Vec::with_capacity(n);
        for _ in 0..n {
            x.push(rng.next_u64());
        }
        pdqselect::select(&mut x, split_location);
        let pivot = x[split_location];
        for &i in &x[0..split_location] {
            assert!(i <= pivot);
        }
        for &i in &x[split_location..] {
            assert!(i >= pivot);
        }
    }
}

#[test]
fn test_node_count() {
    for n in [1usize, 2, 3, 7, 64, 1000] {
        let bvh = BVH::initialize(random_spheres(n, n as u64));
        assert_eq!(bvh.nodes.len(), 2 * n - 1);
    }
}

#[test]
fn test_empty_bvh_misses() {
    let bvh = BVH::initialize(Vec::new());
    let ray = Ray::new(
        Vec3 { x: -fx(3.0), y: 0, z: 0 },
        Vec3 { x: fx(1.0), y: 0, z: 0 },
        fx(500.0),
        0,
    );
    assert!(bvh.hit(ray, 16, i64::MAX).is_none());
}

#[test]
fn test_bvh_matches_linear_scan() {
    let items = random_spheres(1000, 99);
    let bvh = BVH::initialize(random_spheres(1000, 99));
    let list = HitableList::new(&items);
    let mut rng = Xoshiro256Plus::seed_from_u64(1234);
    let mut hits = 0usize;
    for _ in 0..500 {
        let origin = Vec3 {
            x: 3 * unit_coord(&mut rng),
            y: 3 * unit_coord(&mut rng),
            z: 3 * unit_coord(&mut rng),
        };
        let mut dir = Vec3 {
            x: unit_coord(&mut rng),
            y: unit_coord(&mut rng),
            z: unit_coord(&mut rng),
        };
        if dir.x == 0 && dir.y == 0 && dir.z == 0 {
            dir.x = SCALE;
        }
        let ray = Ray::new(origin, dir, fx(500.0), 0);
        let from_scan = list.hit(ray, 16, i64::MAX);
        let from_tree = bvh.hit(ray, 16, i64::MAX);
        match (from_scan, from_tree) {
            (None, None) => {}
            (Some(a), Some(b)) => {
                assert_eq!(a.t, b.t, "closest parameters disagree");
                hits += 1;
            }
            (a, b) => panic!("scan {:?} tree {:?} disagree", a.map(|h| h.t), b.map(|h| h.t)),
        }
    }
    assert!(hits > 0, "no ray hit anything; the comparison tested nothing");
}
