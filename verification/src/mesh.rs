//! Triangle fans, meshes, and the axis-aligned cuboid built from them.
//! A mesh owns a hierarchy over its triangles and intersects through it.

use vstd::prelude::*;
use crate::fixed::{ONE, abs_i};
use crate::vec3::Vec3;
use crate::ray::{Ray, ray_wf};
use crate::aabb::{AABB, aabb_wf};
use crate::hitable::{HitRecord, hit_ok};
use crate::texture::{Texture, texture_ok, texture_equiv};
use crate::triangle::{Triangle, triangle_wf, tvert_ok, tn_ok, uv_ok};
use crate::primitive::Primitive;
use crate::hitable_list::all_wf;
use crate::bvh::{BVH, bvh_wf, bvh_box, bvh_covers};
use crate::primitive::{prim_hit_t, prim_hit_point, prim_hit_normal, prim_hit_uv, prim_texture};

verus! {

/// One fan triangle: the polygon's first entry joined to entries
/// `i + 1` and `i + 2`, carrying a texture interchangeable with the
/// given one.
pub open spec fn fan_tri_ok(
    t: Triangle,
    data: Seq<(Vec3, Vec3, (i64, i64))>,
    i: int,
    tex: Texture,
) -> bool {
    &&& t.vert == (data[0].0, data[i + 1].0, data[i + 2].0)
    &&& t.normal == (data[0].1, data[i + 1].1, data[i + 2].1)
    &&& t.uv == (data[0].2, data[i + 1].2, data[i + 2].2)
    &&& texture_equiv(t.texture, tex)
}

/// Fan a polygon's vertex data into triangles: the first vertex joined
/// to every edge of the rest. Fewer than three vertices give nothing.
pub fn polygon(data: &Vec<(Vec3, Vec3, (i64, i64))>, texture: &Texture) -> (res: Vec<Triangle>)
    requires
        texture_ok(*texture),
        forall|i: int|
            0 <= i < data@.len() ==> tvert_ok((#[trigger] data@[i]).0) && tn_ok(data@[i].1)
                && uv_ok(data@[i].2),
    ensures
        res@.len() == if data@.len() < 3 {
            0int
        } else {
            data@.len() - 2
        },
        forall|i: int| 0 <= i < res@.len() ==> triangle_wf(#[trigger] res@[i]),
        forall|i: int| 0 <= i < res@.len() ==> fan_tri_ok(#[trigger] res@[i], data@, i, *texture),
{
    let mut res: Vec<Triangle> = Vec::new();
    if data.len() < 3 {
        return res;
    }
    let first = data[0];
    let mut k: usize = 1;
    while k < data.len() - 1
        invariant
            1 <= k,
            k + 1 <= data@.len(),
            3 <= data@.len(),
            res@.len() == k - 1,
            texture_ok(*texture),
            forall|i: int|
                0 <= i < data@.len() ==> tvert_ok((#[trigger] data@[i]).0) && tn_ok(data@[i].1)
                    && uv_ok(data@[i].2),
            first == data@[0],
            forall|i: int| 0 <= i < res@.len() ==> triangle_wf(#[trigger] res@[i]),
            texture_ok(*texture),
            forall|i: int|
                0 <= i < res@.len() ==> fan_tri_ok(#[trigger] res@[i], data@, i, *texture),
        decreases data@.len() - k,
    {
        let a = data[k];
        let b = data[k + 1];
        res.push(
            Triangle::new(
                (first.0, a.0, b.0),
                (first.1, a.1, b.1),
                (first.2, a.2, b.2),
                texture.duplicate(),
            ),
        );
        k = k + 1;
    }
    res
}

/// One triangle of a shared-normal fan: vertices from the point list,
/// one normal everywhere, texture coordinates at the origin.
pub open spec fn uniform_fan_tri_ok(
    t: Triangle,
    data: Seq<Vec3>,
    i: int,
    normal: Vec3,
    tex: Texture,
) -> bool {
    &&& t.vert == (data[0], data[i + 1], data[i + 2])
    &&& t.normal == (normal, normal, normal)
    &&& t.uv == ((0i64, 0i64), (0i64, 0i64), (0i64, 0i64))
    &&& texture_equiv(t.texture, tex)
}

/// A polygon whose vertices share one normal; texture coordinates all
/// map to the origin.
pub fn uniform_polygon(data: &Vec<Vec3>, normal: Vec3, texture: &Texture) -> (res: Vec<Triangle>)
    requires
        texture_ok(*texture),
        tn_ok(normal),
        forall|i: int| 0 <= i < data@.len() ==> tvert_ok(#[trigger] data@[i]),
    ensures
        res@.len() == if data@.len() < 3 {
            0int
        } else {
            data@.len() - 2
        },
        forall|i: int| 0 <= i < res@.len() ==> triangle_wf(#[trigger] res@[i]),
        forall|i: int|
            0 <= i < res@.len() ==> uniform_fan_tri_ok(
                #[trigger] res@[i],
                data@,
                i,
                normal,
                *texture,
            ),
{
    let mut args: Vec<(Vec3, Vec3, (i64, i64))> = Vec::new();
    let mut k: usize = 0;
    while k < data.len()
        invariant
            k <= data@.len(),
            args@.len() == k as int,
            tn_ok(normal),
            forall|i: int| 0 <= i < data@.len() ==> tvert_ok(#[trigger] data@[i]),
            forall|i: int|
                0 <= i < k as int ==> tvert_ok((#[trigger] args@[i]).0) && tn_ok(args@[i].1)
                    && uv_ok(args@[i].2),
            forall|i: int|
                0 <= i < k as int ==> #[trigger] args@[i] == (data@[i], normal, (0i64, 0i64)),
        decreases data@.len() - k,
    {
        args.push((data[k], normal, (0i64, 0i64)));
        k = k + 1;
    }
    polygon(&args, texture)
}

/// A triangle soup behind its own hierarchy.
pub struct Mesh {
    pub data: BVH,
}

pub open spec fn mesh_wf(m: Mesh) -> bool {
    bvh_wf(m.data)
}

impl Mesh {
    /// Wrap triangles in a hierarchy; the hierarchy's items are exactly
    /// the given triangles, in order.
    pub fn new(triangles: Vec<Triangle>) -> (m: Mesh)
        requires
            forall|i: int| 0 <= i < triangles@.len() ==> triangle_wf(#[trigger] triangles@[i]),
            triangles@.len() <= 0x2000_0000,
        ensures
            mesh_wf(m),
            m.data.items@.len() == triangles@.len(),
            forall|i: int|
                0 <= i < triangles@.len() ==> #[trigger] m.data.items@[i] == Primitive::Triangle(
                    triangles@[i],
                ),
    {
        let ghost tris0 = triangles@;
        let mut items: Vec<Primitive> = Vec::new();
        let n = triangles.len();
        let mut triangles = triangles;
        let mut k: usize = 0;
        while k < n
            invariant
                k <= n,
                n == tris0.len(),
                triangles@ == tris0.subrange(k as int, n as int),
                items@.len() == k as int,
                forall|i: int| 0 <= i < tris0.len() ==> triangle_wf(#[trigger] tris0[i]),
                all_wf(items@),
                forall|i: int|
                    0 <= i < k as int ==> #[trigger] items@[i] == Primitive::Triangle(tris0[i]),
            decreases n - k,
        {
            proof {
                assert(triangles@[0] == tris0[k as int]);
            }
            let t = triangles.remove(0);
            items.push(Primitive::Triangle(t));
            proof {
                assert(triangles@ =~= tris0.subrange(k + 1 as int, n as int));
            }
            k = k + 1;
        }
        Mesh { data: BVH::initialize(items) }
    }

    /// The box of the mesh's hierarchy.
    pub fn bbox(&self) -> (b: AABB)
        requires
            mesh_wf(*self),
        ensures
            b == bvh_box(self.data),
            aabb_wf(b),
    {
        self.data.bbox()
    }

    /// Intersect through the hierarchy: a result is a genuine hit of one
    /// of the mesh's triangles, and under the covering premise a miss
    /// means no triangle is hit and a hit is the closest one.
    pub fn hit(&self, r: Ray, t_min: i64, t_max: i64) -> (res: Option<HitRecord>)
        requires
            mesh_wf(*self),
            ray_wf(r),
            0 <= r.ti <= ONE,
        ensures
            res matches Some(h) ==> {
                &&& hit_ok(h)
                &&& t_min < h.t < t_max
                &&& exists|j: int|
                    0 <= j < self.data.items@.len() && prim_hit_t(
                        #[trigger] self.data.items@[j],
                        r,
                        t_min as int,
                        t_max as int,
                    ) == Some(h.t as int) && h.p == prim_hit_point(
                        self.data.items@[j],
                        r,
                        h.t as int,
                    ) && h.normal == prim_hit_normal(self.data.items@[j], r, h.t as int) && (
                    h.u as int,
                    h.v as int,
                    ) == prim_hit_uv(self.data.items@[j], r, h.t as int) && *h.texture
                        == prim_texture(self.data.items@[j])
            },
            bvh_covers(self.data, r, t_min as int) && res is None ==> forall|j: int|
                0 <= j < self.data.items@.len() ==> prim_hit_t(
                    #[trigger] self.data.items@[j],
                    r,
                    t_min as int,
                    t_max as int,
                ) is None,
            bvh_covers(self.data, r, t_min as int) && res is Some ==> forall|j: int|
                0 <= j < self.data.items@.len() ==> match prim_hit_t(
                    #[trigger] self.data.items@[j],
                    r,
                    t_min as int,
                    t_max as int,
                ) {
                    Some(t) => res->Some_0.t <= t,
                    None => true,
                },
    {
        self.data.hit(r, t_min, t_max)
    }
}

/// One face triangle of the cuboid: the given vertices, one outward
/// axis normal, origin texture coordinates, and the cuboid's texture.
pub open spec fn quad_tri_ok(
    p: Primitive,
    v0: Vec3,
    v1: Vec3,
    v2: Vec3,
    n: Vec3,
    tex: Texture,
) -> bool {
    &&& p matches Primitive::Triangle(t) && t.vert == (v0, v1, v2) && t.normal == (n, n, n)
        && t.uv == ((0i64, 0i64), (0i64, 0i64), (0i64, 0i64)) && texture_equiv(t.texture, tex)
}

/// Two fan triangles covering one quad face.
pub open spec fn face_tris_ok(
    items: Seq<Primitive>,
    base: int,
    a: Vec3,
    b: Vec3,
    c: Vec3,
    d: Vec3,
    n: Vec3,
    tex: Texture,
) -> bool {
    &&& quad_tri_ok(items[base], a, b, c, n, tex)
    &&& quad_tri_ok(items[base + 1], a, c, d, n, tex)
}

/// An axis-aligned cuboid between two corners: six quads fanned into
/// twelve triangles, wrapped in a mesh. Texture coordinates all map to
/// the origin; each face carries its outward axis-aligned normal.
pub fn axis_aligned_cuboid(l: Vec3, h: Vec3, texture: &Texture) -> (m: Mesh)
    requires
        tvert_ok(l),
        tvert_ok(h),
        texture_ok(*texture),
    ensures
        mesh_wf(m),
        m.data.items@.len() == 12,
        face_tris_ok(
            m.data.items@,
            0,
            l,
            (Vec3 { x: l.x, y: h.y, z: l.z }),
            (Vec3 { x: l.x, y: h.y, z: h.z }),
            (Vec3 { x: l.x, y: l.y, z: h.z }),
            (Vec3 { x: (-ONE) as i64, y: 0i64, z: 0i64 }),
            *texture,
        ),
        face_tris_ok(
            m.data.items@,
            2,
            l,
            (Vec3 { x: h.x, y: l.y, z: l.z }),
            (Vec3 { x: h.x, y: l.y, z: h.z }),
            (Vec3 { x: l.x, y: l.y, z: h.z }),
            (Vec3 { x: 0i64, y: (-ONE) as i64, z: 0i64 }),
            *texture,
        ),
        face_tris_ok(
            m.data.items@,
            4,
            l,
            (Vec3 { x: h.x, y: l.y, z: l.z }),
            (Vec3 { x: h.x, y: h.y, z: l.z }),
            (Vec3 { x: l.x, y: h.y, z: l.z }),
            (Vec3 { x: 0i64, y: 0i64, z: (-ONE) as i64 }),
            *texture,
        ),
        face_tris_ok(
            m.data.items@,
            6,
            h,
            (Vec3 { x: h.x, y: h.y, z: l.z }),
            (Vec3 { x: h.x, y: l.y, z: l.z }),
            (Vec3 { x: h.x, y: l.y, z: h.z }),
            (Vec3 { x: ONE, y: 0i64, z: 0i64 }),
            *texture,
        ),
        face_tris_ok(
            m.data.items@,
            8,
            h,
            (Vec3 { x: h.x, y: h.y, z: l.z }),
            (Vec3 { x: l.x, y: h.y, z: l.z }),
            (Vec3 { x: l.x, y: h.y, z: h.z }),
            (Vec3 { x: 0i64, y: ONE, z: 0i64 }),
            *texture,
        ),
        face_tris_ok(
            m.data.items@,
            10,
            h,
            (Vec3 { x: h.x, y: l.y, z: h.z }),
            (Vec3 { x: l.x, y: l.y, z: h.z }),
            (Vec3 { x: l.x, y: h.y, z: h.z }),
            (Vec3 { x: 0i64, y: 0i64, z: ONE }),
            *texture,
        ),
{
    let mut triangles: Vec<Triangle> = Vec::new();
    let xs = side_quad(
        l,
        Vec3 { x: l.x, y: h.y, z: l.z },
        Vec3 { x: l.x, y: h.y, z: h.z },
        Vec3 { x: l.x, y: l.y, z: h.z },
        Vec3 { x: -ONE, y: 0, z: 0 },
        texture,
    );
    let ys = side_quad(
        l,
        Vec3 { x: h.x, y: l.y, z: l.z },
        Vec3 { x: h.x, y: l.y, z: h.z },
        Vec3 { x: l.x, y: l.y, z: h.z },
        Vec3 { x: 0, y: -ONE, z: 0 },
        texture,
    );
    let zs = side_quad(
        l,
        Vec3 { x: h.x, y: l.y, z: l.z },
        Vec3 { x: h.x, y: h.y, z: l.z },
        Vec3 { x: l.x, y: h.y, z: l.z },
        Vec3 { x: 0, y: 0, z: -ONE },
        texture,
    );
    let xh = side_quad(
        h,
        Vec3 { x: h.x, y: h.y, z: l.z },
        Vec3 { x: h.x, y: l.y, z: l.z },
        Vec3 { x: h.x, y: l.y, z: h.z },
        Vec3 { x: ONE, y: 0, z: 0 },
        texture,
    );
    let yh = side_quad(
        h,
        Vec3 { x: h.x, y: h.y, z: l.z },
        Vec3 { x: l.x, y: h.y, z: l.z },
        Vec3 { x: l.x, y: h.y, z: h.z },
        Vec3 { x: 0, y: ONE, z: 0 },
        texture,
    );
    let zh = side_quad(
        h,
        Vec3 { x: h.x, y: l.y, z: h.z },
        Vec3 { x: l.x, y: l.y, z: h.z },
        Vec3 { x: l.x, y: h.y, z: h.z },
        Vec3 { x: 0, y: 0, z: ONE },
        texture,
    );
    extend_tris(&mut triangles, xs);
    extend_tris(&mut triangles, ys);
    extend_tris(&mut triangles, zs);
    extend_tris(&mut triangles, xh);
    extend_tris(&mut triangles, yh);
    extend_tris(&mut triangles, zh);
    Mesh::new(triangles)
}

/// One face of the cuboid as a fan of two triangles.
fn side_quad(a: Vec3, b: Vec3, c: Vec3, d: Vec3, normal: Vec3, texture: &Texture) -> (res: Vec<
    Triangle,
>)
    requires
        tvert_ok(a) && tvert_ok(b) && tvert_ok(c) && tvert_ok(d),
        tn_ok(normal),
        texture_ok(*texture),
    ensures
        res@.len() == 2,
        forall|i: int| 0 <= i < res@.len() ==> triangle_wf(#[trigger] res@[i]),
        quad_tri_ok(Primitive::Triangle(res@[0]), a, b, c, normal, *texture),
        quad_tri_ok(Primitive::Triangle(res@[1]), a, c, d, normal, *texture),
{
    let mut pts: Vec<Vec3> = Vec::new();
    pts.push(a);
    pts.push(b);
    pts.push(c);
    pts.push(d);
    let res = uniform_polygon(&pts, normal, texture);
    proof {
        assert(uniform_fan_tri_ok(res@[0], pts@, 0, normal, *texture));
        assert(uniform_fan_tri_ok(res@[1], pts@, 1, normal, *texture));
    }
    res
}

/// Append every triangle of the second vector to the first, in order.
fn extend_tris(dst: &mut Vec<Triangle>, src: Vec<Triangle>)
    ensures
        final(dst)@ == old(dst)@ + src@,
{
    let ghost src0 = src@;
    let ghost dst0 = dst@;
    let n = src.len();
    let mut src = src;
    let mut k: usize = 0;
    while k < n
        invariant
            k <= n,
            n == src0.len(),
            src@ == src0.subrange(k as int, n as int),
            dst@ == dst0 + src0.subrange(0, k as int),
        decreases n - k,
    {
        proof {
            assert(src@[0] == src0[k as int]);
        }
        let t = src.remove(0);
        dst.push(t);
        proof {
            assert(src@ =~= src0.subrange(k + 1 as int, n as int));
            assert(dst@ =~= dst0 + src0.subrange(0, k + 1 as int));
        }
        k = k + 1;
    }
    proof {
        assert(src0.subrange(0, n as int) =~= src0);
    }
}

} // verus!
