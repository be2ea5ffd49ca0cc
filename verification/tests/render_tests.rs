//! End-to-end behaviour of the rendering pieces: materials, camera,
//! integrator, accumulator, meshes, and the partition inside the build.

use rayer::fixed::{ONE, SCALE, HALF};
use rayer::vec3::Vec3;
use rayer::ray::Ray;
use rayer::sphere::Sphere;
use rayer::triangle::Triangle;
use rayer::bvh::{BVH, NodeKind};
use rayer::primitive::Primitive;
use rayer::texture::{Texture, ImageTexture};
use rayer::material::{Material, Lambertian, Metal, Dielectric, DiffuseLight};
use rayer::color::Rgb;
use rayer::random::TracerRng;
use rayer::camera::Camera;
use rayer::integrator::reflectance;
use rayer::scheduler::{Accumulator, Xyz, pixel_coords};
use rayer::mesh::{axis_aligned_cuboid, uniform_polygon, Mesh};

fn fx(x: f64) -> i64 {
    (x * SCALE as f64).round() as i64
}

fn v(x: f64, y: f64, z: f64) -> Vec3 {
    Vec3 { x: fx(x), y: fx(y), z: fx(z) }
}

fn grey_texture() -> Texture {
    Texture::Constant(Material::Lambertian(Lambertian::new(Rgb::new(fx(0.5), fx(0.5), fx(0.5)))))
}

#[test]
fn test_partition_splits_by_centroid() {
    // spheres laid out along x in descending order; after the median
    // partition the left subtree must hold the two smallest
    let mut items = Vec::new();
    for x in [3.0, 2.0, 1.0, 0.0] {
        items.push(Primitive::Sphere(Sphere::new(v(x, 0.0, 0.0), fx(0.1), grey_texture())));
    }
    let bvh = BVH::initialize(items);
    assert_eq!(bvh.nodes.len(), 7);
    match bvh.nodes[0].next {
        NodeKind::Bin { left_length } => assert_eq!(left_length, 3),
        _ => panic!("root must be interior"),
    }
    // left child sits right after the root and covers x in [-0.1, 1.1]
    let left_box = bvh.nodes[1].bbox;
    assert!(left_box.high.x <= fx(1.2), "left subtree holds far spheres: {}", left_box.high.x);
    assert!(left_box.low.x >= -fx(0.2));
}

#[test]
fn test_diffuse_light_emits_and_terminates() {
    let mut rng = TracerRng::from_seed(5);
    let light = DiffuseLight::new(Rgb::new(fx(5.0), fx(5.0), fx(5.0)));
    let world = BVH::initialize(vec![Primitive::Sphere(Sphere::new(
        v(0.0, 0.0, -3.0),
        fx(1.0),
        Texture::Constant(Material::DiffuseLight(light)),
    ))]);
    let ray = Ray::new(v(0.0, 0.0, 0.0), v(0.0, 0.0, -1.0), fx(500.0), 0);
    let res = reflectance(&world, &mut rng, ray, false);
    assert!((res - fx(5.0)).abs() < fx(0.02), "emitter should light the path: {}", res);
}

#[test]
fn test_miss_with_sky_is_positive() {
    let mut rng = TracerRng::from_seed(6);
    let world = BVH::initialize(Vec::new());
    let ray = Ray::new(v(0.0, 0.0, 0.0), v(0.0, 1.0, 0.0), fx(500.0), 0);
    let lit = reflectance(&world, &mut rng, ray, true);
    assert!(lit > 0, "sky should contribute: {}", lit);
    let dark = reflectance(&world, &mut rng, ray, false);
    assert_eq!(dark, 0);
}

#[test]
fn test_metal_clamps_fuzz() {
    let m = Metal::new(Rgb::new(ONE, ONE, ONE), 3 * ONE);
    assert_eq!(m.fuzz, ONE);
    let m = Metal::new(Rgb::new(ONE, ONE, ONE), -5);
    assert_eq!(m.fuzz, 0);
}

#[test]
fn test_sellmeier_index_is_physical() {
    // SF66 is a dense glass: its index at 500 nm is around 1.95
    let d = Dielectric::sf66();
    let n = d.refractive_index(fx(500.0));
    assert!((n - fx(1.95)).abs() < fx(0.02), "index: {}", n);
    // BAF10 is lighter, around 1.68
    let b = Dielectric::baf10();
    let nb = b.refractive_index(fx(500.0));
    assert!((nb - fx(1.68)).abs() < fx(0.02), "index: {}", nb);
}

#[test]
fn test_camera_rays_reach_the_scene() {
    let cam = Camera::new(
        v(0.0, 0.0, 5.0),
        v(0.0, 0.0, 0.0),
        v(0.0, 1.0, 0.0),
        fx(0.3),
        fx(1.333),
        0,
        fx(5.0),
        0,
        ONE,
    )
    .expect("camera frame");
    let world = BVH::initialize(vec![Primitive::Sphere(Sphere::new(
        v(0.0, 0.0, 0.0),
        fx(1.0),
        grey_texture(),
    ))]);
    let mut rng = TracerRng::from_seed(11);
    let r = cam.get_ray(&mut rng, HALF, HALF, fx(500.0));
    assert_eq!(r.wl, fx(500.0));
    let hit = world.hit(r, 16, i64::MAX);
    assert!(hit.is_some(), "central ray should strike the centred sphere");
}

#[test]
fn test_accumulator_sums_whole_samples() {
    let mut acc = Accumulator::new(4);
    let sample: Vec<Xyz> = (0..4).map(|i| Xyz { x: i as i64, y: 2 * i as i64, z: 0 }).collect();
    acc.add_sample(&sample);
    acc.add_sample(&sample);
    assert_eq!(acc.samples_done, 2);
    assert_eq!(acc.buffer[3], Xyz { x: 6, y: 12, z: 0 });
}

#[test]
fn test_pixel_coords_convention() {
    assert_eq!(pixel_coords(0, 8, 6), (0, 6));
    assert_eq!(pixel_coords(9, 8, 6), (1, 5));
    assert_eq!(pixel_coords(47, 8, 6), (7, 1));
}

#[test]
fn test_cuboid_has_twelve_triangles() {
    let t = grey_texture();
    let m = axis_aligned_cuboid(v(-1.0, -1.0, -1.0), v(1.0, 1.0, 1.0), &t);
    assert_eq!(m.data.items.len(), 12);
    let ray = Ray::new(v(-3.0, 0.2, 0.3), v(1.0, 0.0, 0.0), fx(500.0), 0);
    let hit = m.hit(ray, 16, i64::MAX).expect("ray into the cuboid must hit");
    assert_eq!(hit.t, fx(2.0));
}

#[test]
fn test_uniform_polygon_fans() {
    let t = grey_texture();
    let pts = vec![v(0.0, 0.0, 0.0), v(1.0, 0.0, 0.0), v(1.0, 1.0, 0.0), v(0.0, 1.0, 0.0)];
    let tris: Vec<Triangle> = uniform_polygon(&pts, v(0.0, 0.0, 1.0), &t);
    assert_eq!(tris.len(), 2);
    let m = Mesh::new(tris);
    let ray = Ray::new(v(0.5, 0.5, 2.0), v(0.0, 0.0, -1.0), fx(500.0), 0);
    let hit = m.hit(ray, 16, i64::MAX).expect("quad must be hit");
    assert_eq!(hit.t, fx(2.0));
}

#[test]
fn test_triangle_hit_barycentrics() {
    let t = grey_texture();
    let tri = Triangle::new(
        (v(-1.0, 0.0, 0.0), v(1.0, 0.0, 0.0), v(0.0, 2.0, 0.0)),
        (v(0.0, 0.0, 1.0), v(0.0, 0.0, 1.0), v(0.0, 0.0, 1.0)),
        ((0, 0), (ONE, 0), (HALF, ONE)),
        t,
    );
    let ray = Ray::new(v(0.0, 0.5, 3.0), v(0.0, 0.0, -1.0), fx(500.0), 0);
    let hit = tri.hit(ray, 16, i64::MAX).expect("must hit the face");
    assert_eq!(hit.t, fx(3.0));
    assert_eq!(hit.normal, v(0.0, 0.0, 1.0));
    let miss = Ray::new(v(2.0, 0.5, 3.0), v(0.0, 0.0, -1.0), fx(500.0), 0);
    assert!(tri.hit(miss, 16, i64::MAX).is_none());
}

#[test]
fn test_image_texture_lookup() {
    // 2 x 2 image: distinct reflectances per pixel, row-major from the top
    let px = |c: f64| Rgb::new(fx(c), fx(c), fx(c));
    let img = ImageTexture::new(2, 2, vec![px(0.1), px(0.2), px(0.3), px(0.4)]);
    let t = Texture::Image(img);
    // u right of centre, v near the top selects the second pixel
    match t.value(fx(0.75), fx(0.9)) {
        Material::Lambertian(l) => assert_eq!(l.albedo, px(0.2)),
        _ => panic!("image lookup must be matte"),
    }
    match t.value(fx(0.25), fx(0.1)) {
        Material::Lambertian(l) => assert_eq!(l.albedo, px(0.3)),
        _ => panic!("image lookup must be matte"),
    }
}

#[test]
fn test_rng_samplers_land_inside() {
    let mut rng = TracerRng::from_seed(17);
    for _ in 0..100 {
        let p = rng.rand_in_unit_sphere();
        assert!(p.square_length() < ONE);
        let d = rng.rand_in_unit_disk();
        assert!(d.square_length() < ONE && d.z == 0);
        let g = rng.gen_range(-3, 9);
        assert!((-3..9).contains(&g));
        let u = rng.next_unit();
        assert!((0..ONE).contains(&u));
    }
}

#[test]
fn test_translate_moves_hits() {
    let inner = Primitive::Sphere(Sphere::new(v(0.0, 0.0, 0.0), fx(1.0), grey_texture()));
    let moved = rayer::primitive::translate(inner, v(0.0, 5.0, 0.0)).expect("in range");
    let ray = Ray::new(v(-3.0, 5.0, 0.0), v(1.0, 0.0, 0.0), fx(500.0), 0);
    let hit = moved.hit(ray, 16, i64::MAX).expect("shifted sphere must be hit");
    assert_eq!(hit.t, fx(2.0));
    assert_eq!(hit.p, v(-1.0, 5.0, 0.0));
    assert_eq!(hit.normal, v(-1.0, 0.0, 0.0));
    let old_ray = Ray::new(v(-3.0, 0.0, 0.0), v(1.0, 0.0, 0.0), fx(500.0), 0);
    assert!(moved.hit(old_ray, 16, i64::MAX).is_none(), "original spot must now miss");
}

#[test]
fn test_scale_stretches_hits() {
    let inner = Primitive::Sphere(Sphere::new(v(0.0, 0.0, 0.0), fx(1.0), grey_texture()));
    let wide = rayer::primitive::scale(inner, v(2.0, 1.0, 1.0)).expect("in range");
    // the scaled sphere reaches x = -2, so a ray from -4 enters at t = 2
    let ray = Ray::new(v(-4.0, 0.0, 0.0), v(1.0, 0.0, 0.0), fx(500.0), 0);
    let hit = wide.hit(ray, 16, i64::MAX).expect("stretched sphere must be hit");
    assert_eq!(hit.t, fx(2.0));
    assert_eq!(hit.p, v(-2.0, 0.0, 0.0));
    // the z extent is unchanged, so a ray offset past z = 1 still misses
    let graze = Ray::new(v(-4.0, 0.0, 1.5), v(1.0, 0.0, 0.0), fx(500.0), 0);
    assert!(wide.hit(graze, 16, i64::MAX).is_none(), "z extent must be unchanged");
}

#[test]
fn test_rotate_y_turns_hits() {
    // a quarter turn about y maps the x axis onto the z axis
    let inner = Primitive::Sphere(Sphere::new(v(2.0, 0.0, 0.0), fx(0.5), grey_texture()));
    let turned = rayer::primitive::rotate_y(inner, fx(1.0), 0).expect("in range");
    let ray = Ray::new(v(0.0, 0.0, -4.0), v(0.0, 0.0, 1.0), fx(500.0), 0);
    let hit = turned.hit(ray, 16, i64::MAX).expect("rotated sphere must sit on the z axis");
    assert_eq!(hit.t, fx(1.5));
    let old_ray = Ray::new(v(4.0, 0.0, 0.0), v(-1.0, 0.0, 0.0), fx(500.0), 0);
    assert!(turned.hit(old_ray, 16, i64::MAX).is_none(), "original spot must now miss");
}
