//! Triangles with per-vertex normals and texture coordinates, and
//! their ray intersection by scalar triple products.

use vstd::prelude::*;
use vstd::arithmetic::div_mod::{lemma_div_pos_is_pos, lemma_div_nonincreasing, lemma_div_is_ordered};
use crate::fixed::{
    SCALE, ONE, abs_i, div_tz, fx_mul, fx_div, mul_fx, div_trunc_i128, isqrt_spec,
    lemma_abs_mul_le, lemma_div_tz_abs, lemma_fx_mul_bound,
};
use crate::vec3::{Vec3, vec_ok, dvec_ok, coord_ok, dot_spec, CMAX};
use crate::ray::{Ray, ray_wf, DMAX};
use crate::aabb::{AABB, aabb_wf, box_vec_ok};
use crate::texture::{Texture, texture_ok};
use crate::hitable::{HitRecord, hit_ok, NMAX};
use crate::sphere::ray_point;

verus! {

/// Largest vertex-normal component a triangle admits; face normals of
/// unnormalised meshes stay within it.
pub const TNMAX: i64 = 0x1_0000_0000;

pub struct Triangle {
    pub vert: (Vec3, Vec3, Vec3),
    pub normal: (Vec3, Vec3, Vec3),
    pub uv: ((i64, i64), (i64, i64), (i64, i64)),
    pub texture: Texture,
}

pub open spec fn tn_ok(n: Vec3) -> bool {
    abs_i(n.x as int) <= TNMAX as int && abs_i(n.y as int) <= TNMAX as int && abs_i(n.z as int)
        <= TNMAX as int
}

pub open spec fn uv_ok(uv: (i64, i64)) -> bool {
    0 <= uv.0 <= ONE && 0 <= uv.1 <= ONE
}

pub open spec fn tvert_ok(v: Vec3) -> bool {
    abs_i(v.x as int) <= 0x8_0000_0000 && abs_i(v.y as int) <= 0x8_0000_0000 && abs_i(v.z as int)
        <= 0x8_0000_0000
}

pub open spec fn triangle_wf(t: Triangle) -> bool {
    &&& tvert_ok(t.vert.0) && tvert_ok(t.vert.1) && tvert_ok(t.vert.2)
    &&& tn_ok(t.normal.0) && tn_ok(t.normal.1) && tn_ok(t.normal.2)
    &&& uv_ok(t.uv.0) && uv_ok(t.uv.1) && uv_ok(t.uv.2)
    &&& texture_ok(t.texture)
}

impl Triangle {
    pub fn new(
        vert: (Vec3, Vec3, Vec3),
        normal: (Vec3, Vec3, Vec3),
        uv: ((i64, i64), (i64, i64), (i64, i64)),
        texture: Texture,
    ) -> (t: Triangle)
        requires
            tvert_ok(vert.0) && tvert_ok(vert.1) && tvert_ok(vert.2),
            tn_ok(normal.0) && tn_ok(normal.1) && tn_ok(normal.2),
            uv_ok(uv.0) && uv_ok(uv.1) && uv_ok(uv.2),
            texture_ok(texture),
        ensures
            t.vert == vert && t.normal == normal && t.uv == uv && t.texture == texture,
            triangle_wf(t),
    {
        Triangle { vert, normal, uv, texture }
    }

    /// The componentwise extent of the three vertices.
    pub fn bbox(&self) -> (b: AABB)
        requires
            triangle_wf(*self),
        ensures
            b == triangle_bbox(*self),
            aabb_wf(b),
    {
        let (a, bb, c) = (self.vert.0, self.vert.1, self.vert.2);
        AABB {
            low: Vec3 {
                x: min3e(a.x, bb.x, c.x),
                y: min3e(a.y, bb.y, c.y),
                z: min3e(a.z, bb.z, c.z),
            },
            high: Vec3 {
                x: max3e(a.x, bb.x, c.x),
                y: max3e(a.y, bb.y, c.y),
                z: max3e(a.z, bb.z, c.z),
            },
        }
    }
}

fn min3e(a: i64, b: i64, c: i64) -> (r: i64)
    ensures
        r == crate::color::min3(a as int, b as int, c as int),
{
    if a <= b && a <= c {
        a
    } else if b <= c {
        b
    } else {
        c
    }
}

fn max3e(a: i64, b: i64, c: i64) -> (r: i64)
    ensures
        r == crate::color::max3(a as int, b as int, c as int),
{
    if a >= b && a >= c {
        a
    } else if b >= c {
        b
    } else {
        c
    }
}

pub open spec fn triangle_bbox(t: Triangle) -> AABB {
    AABB {
        low: Vec3 {
            x: crate::color::min3(t.vert.0.x as int, t.vert.1.x as int, t.vert.2.x as int) as i64,
            y: crate::color::min3(t.vert.0.y as int, t.vert.1.y as int, t.vert.2.y as int) as i64,
            z: crate::color::min3(t.vert.0.z as int, t.vert.1.z as int, t.vert.2.z as int) as i64,
        },
        high: Vec3 {
            x: crate::color::max3(t.vert.0.x as int, t.vert.1.x as int, t.vert.2.x as int) as i64,
            y: crate::color::max3(t.vert.0.y as int, t.vert.1.y as int, t.vert.2.y as int) as i64,
            z: crate::color::max3(t.vert.0.z as int, t.vert.1.z as int, t.vert.2.z as int) as i64,
        },
    }
}

/// The wide scalar triple product `(a x b) . c`, with no intermediate
/// rounding; it carries three scale factors.
pub open spec fn triple_wide(a: Vec3, b: Vec3, c: Vec3) -> int {
    (a.y * b.z - a.z * b.y) * c.x + (a.z * b.x - a.x * b.z) * c.y + (a.x * b.y - a.y * b.x) * c.z
}

/// The barycentric numerators and determinant of the intersection, all
/// wide. With edges `e1 = v1 - v0`, `e2 = v2 - v0` and `tv` the origin
/// offset: the determinant is `(d x e2) . e1`, the first coordinate
/// numerator `(d x e2) . tv`, the second `(tv x e1) . d`, and the ray
/// parameter numerator `(tv x e1) . e2`.
pub open spec fn tri_det(t: Triangle, r: Ray) -> int {
    triple_wide(r.direction, vsub_w(t.vert.2, t.vert.0), vsub_w(t.vert.1, t.vert.0))
}

pub open spec fn vsub_w(a: Vec3, b: Vec3) -> Vec3 {
    Vec3 { x: (a.x - b.x) as i64, y: (a.y - b.y) as i64, z: (a.z - b.z) as i64 }
}

pub open spec fn tri_u_num(t: Triangle, r: Ray) -> int {
    triple_wide(r.direction, vsub_w(t.vert.2, t.vert.0), vsub_w(r.origin, t.vert.0))
}

pub open spec fn tri_v_num(t: Triangle, r: Ray) -> int {
    triple_wide(vsub_w(r.origin, t.vert.0), vsub_w(t.vert.1, t.vert.0), r.direction)
}

pub open spec fn tri_t_num(t: Triangle, r: Ray) -> int {
    triple_wide(vsub_w(r.origin, t.vert.0), vsub_w(t.vert.1, t.vert.0), vsub_w(t.vert.2, t.vert.0))
}

/// A wide ratio brought to fixed point.
pub open spec fn wide_ratio(num: int, den: int) -> int {
    div_tz(num * (SCALE as int), den)
}

/// The accepted ray parameter of a triangle intersection, if any: the
/// barycentric coordinates must all lie in the unit range, and the
/// parameter in the interval and coordinate range, with the hit point
/// in range. A zero determinant is a miss.
/// Whether the ray origin is near enough to the triangle for the wide
/// products to stay in range.
pub open spec fn tri_origin_near(tr: Triangle, r: Ray) -> bool {
    let tv = vsub_w(r.origin, tr.vert.0);
    abs_i(tv.x as int) <= 0x10_0000_0000 && abs_i(tv.y as int) <= 0x10_0000_0000 && abs_i(
        tv.z as int,
    ) <= 0x10_0000_0000
}

pub open spec fn triangle_hit_t(tr: Triangle, r: Ray, t_min: int, t_max: int) -> Option<int> {
    let det = tri_det(tr, r);
    if det == 0 || !tri_origin_near(tr, r) {
        Option::<int>::None
    } else {
        let u = wide_ratio(tri_u_num(tr, r), det);
        let v = wide_ratio(tri_v_num(tr, r), det);
        let t = wide_ratio(tri_t_num(tr, r), det);
        let w = ONE - u - v;
        if 0 <= u <= ONE && 0 <= v <= ONE && 0 <= w <= ONE && t_min < t < t_max && abs_i(t)
            <= CMAX as int && vec_ok(ray_point(r, t)) && tri_unit_ok(tr, r) {
            Some(t)
        } else {
            Option::<int>::None
        }
    }
}

/// The interpolated, unnormalised normal at the intersection, weighted
/// by the barycentric coordinates in the source's ordering.
pub open spec fn tri_interp_m(tr: Triangle, r: Ray) -> Vec3 {
    let det = tri_det(tr, r);
    let u = wide_ratio(tri_u_num(tr, r), det);
    let v = wide_ratio(tri_v_num(tr, r), det);
    let w = ONE - u - v;
    Vec3 {
        x: (fx_mul(tr.normal.0.x as int, v) + fx_mul(tr.normal.1.x as int, u) + fx_mul(
            tr.normal.2.x as int,
            w,
        )) as i64,
        y: (fx_mul(tr.normal.0.y as int, v) + fx_mul(tr.normal.1.y as int, u) + fx_mul(
            tr.normal.2.y as int,
            w,
        )) as i64,
        z: (fx_mul(tr.normal.0.z as int, v) + fx_mul(tr.normal.1.z as int, u) + fx_mul(
            tr.normal.2.z as int,
            w,
        )) as i64,
    }
}

/// Whether the interpolated normal normalises into range.
pub open spec fn tri_unit_ok(tr: Triangle, r: Ray) -> bool {
    let m = tri_interp_m(tr, r);
    let len = isqrt_spec((dot_spec(m, m) * SCALE) as nat) as int;
    &&& len > 0
    &&& abs_i(fx_div(m.x as int, len)) <= 3 * ONE
    &&& abs_i(fx_div(m.y as int, len)) <= 3 * ONE
    &&& abs_i(fx_div(m.z as int, len)) <= 3 * ONE
}

/// The texture coordinates at the intersection, interpolated with the
/// barycentric weights in the source's ordering.
pub open spec fn tri_uv_spec(tr: Triangle, r: Ray) -> (int, int) {
    let det = tri_det(tr, r);
    let u = wide_ratio(tri_u_num(tr, r), det);
    let v = wide_ratio(tri_v_num(tr, r), det);
    let w = ONE - u - v;
    (
        fx_mul(tr.uv.0.0 as int, v) + fx_mul(tr.uv.1.0 as int, u) + fx_mul(tr.uv.2.0 as int, w),
        fx_mul(tr.uv.0.1 as int, v) + fx_mul(tr.uv.1.1 as int, u) + fx_mul(tr.uv.2.1 as int, w),
    )
}

/// The unit normal at the intersection.
pub open spec fn tri_unit_normal(tr: Triangle, r: Ray) -> Vec3 {
    let m = tri_interp_m(tr, r);
    let len = isqrt_spec((dot_spec(m, m) * SCALE) as nat) as int;
    Vec3 {
        x: fx_div(m.x as int, len) as i64,
        y: fx_div(m.y as int, len) as i64,
        z: fx_div(m.z as int, len) as i64,
    }
}

/// The wide triple product of bounded vectors, computed exactly.
fn triple_exec(a: Vec3, b: Vec3, c: Vec3) -> (r: i128)
    requires
        abs_i(a.x as int) <= 0x10_0000_0000 && abs_i(a.y as int) <= 0x10_0000_0000 && abs_i(
            a.z as int,
        ) <= 0x10_0000_0000,
        abs_i(b.x as int) <= 0x10_0000_0000 && abs_i(b.y as int) <= 0x10_0000_0000 && abs_i(
            b.z as int,
        ) <= 0x10_0000_0000,
        abs_i(c.x as int) <= 0x10_0000_0000 && abs_i(c.y as int) <= 0x10_0000_0000 && abs_i(
            c.z as int,
        ) <= 0x10_0000_0000,
    ensures
        r == triple_wide(a, b, c),
        abs_i(r as int) <= 0x6000_0000_0000_0000_0000_0000_0000,
{
    proof {
        lemma_abs_mul_le(a.y as int, b.z as int, 0x10_0000_0000, 0x10_0000_0000);
        lemma_abs_mul_le(a.z as int, b.y as int, 0x10_0000_0000, 0x10_0000_0000);
        lemma_abs_mul_le(a.z as int, b.x as int, 0x10_0000_0000, 0x10_0000_0000);
        lemma_abs_mul_le(a.x as int, b.z as int, 0x10_0000_0000, 0x10_0000_0000);
        lemma_abs_mul_le(a.x as int, b.y as int, 0x10_0000_0000, 0x10_0000_0000);
        lemma_abs_mul_le(a.y as int, b.x as int, 0x10_0000_0000, 0x10_0000_0000);
        lemma_abs_mul_le(
            (a.y as int) * (b.z as int) - (a.z as int) * (b.y as int),
            c.x as int,
            0x200_0000_0000_0000_0000,
            0x10_0000_0000,
        );
        lemma_abs_mul_le(
            (a.z as int) * (b.x as int) - (a.x as int) * (b.z as int),
            c.y as int,
            0x200_0000_0000_0000_0000,
            0x10_0000_0000,
        );
        lemma_abs_mul_le(
            (a.x as int) * (b.y as int) - (a.y as int) * (b.x as int),
            c.z as int,
            0x200_0000_0000_0000_0000,
            0x10_0000_0000,
        );
    }
    let cx: i128 = (a.y as i128) * (b.z as i128) - (a.z as i128) * (b.y as i128);
    let cy: i128 = (a.z as i128) * (b.x as i128) - (a.x as i128) * (b.z as i128);
    let cz: i128 = (a.x as i128) * (b.y as i128) - (a.y as i128) * (b.x as i128);
    cx * (c.x as i128) + cy * (c.y as i128) + cz * (c.z as i128)
}

/// A wide ratio in exec form; the numerator is shifted by one scale.
fn wide_ratio_exec(num: i128, den: i128) -> (r: i128)
    requires
        den != 0,
        den != i128::MIN,
        abs_i(num as int) <= 0x6000_0000_0000_0000_0000_0000_0000,
    ensures
        r == wide_ratio(num as int, den as int),
        abs_i(r as int) <= abs_i(num as int) * 65536,
{
    proof {
        lemma_div_tz_abs(num * 65536, den as int);
        lemma_div_pos_is_pos(abs_i(num * 65536), abs_i(den as int));
        lemma_div_nonincreasing(abs_i(num * 65536), abs_i(den as int));
        lemma_abs_mul_le(num as int, 65536, 0x6000_0000_0000_0000_0000_0000_0000, 65536);
        assert(abs_i(num * 65536) == abs_i(num as int) * 65536) by (nonlinear_arith) {}
    }
    div_trunc_i128(num * 65536, den)
}

impl Triangle {
    /// Intersect a ray with the triangle over the open interval: the
    /// accepted parameter of `triangle_hit_t`, with the interpolated
    /// normal and texture coordinates.
    pub fn hit(&self, r: Ray, t_min: i64, t_max: i64) -> (res: Option<HitRecord>)
        requires
            triangle_wf(*self),
            ray_wf(r),
        ensures
            res is Some <==> triangle_hit_t(*self, r, t_min as int, t_max as int) is Some,
            res matches Some(h) ==> {
                &&& triangle_hit_t(*self, r, t_min as int, t_max as int) == Some(h.t as int)
                &&& h.p == ray_point(r, h.t as int)
                &&& h.normal == tri_unit_normal(*self, r)
                &&& (h.u as int, h.v as int) == tri_uv_spec(*self, r)
                &&& h.texture == &self.texture
                &&& hit_ok(h)
            },
    {
        let e1 = Vec3 {
            x: self.vert.1.x - self.vert.0.x,
            y: self.vert.1.y - self.vert.0.y,
            z: self.vert.1.z - self.vert.0.z,
        };
        let e2 = Vec3 {
            x: self.vert.2.x - self.vert.0.x,
            y: self.vert.2.y - self.vert.0.y,
            z: self.vert.2.z - self.vert.0.z,
        };
        let tv = Vec3 {
            x: r.origin.x - self.vert.0.x,
            y: r.origin.y - self.vert.0.y,
            z: r.origin.z - self.vert.0.z,
        };
        if !(tv.x >= -0x10_0000_0000 && tv.x <= 0x10_0000_0000 && tv.y >= -0x10_0000_0000
            && tv.y <= 0x10_0000_0000 && tv.z >= -0x10_0000_0000 && tv.z <= 0x10_0000_0000) {
            return None;
        }
        let det: i128 = triple_exec(r.direction, e2, e1);
        if det == 0 {
            return None;
        }
        let u128v: i128 = wide_ratio_exec(triple_exec(r.direction, e2, tv), det);
        if !(u128v >= 0 && u128v <= ONE as i128) {
            return None;
        }
        let v128: i128 = wide_ratio_exec(triple_exec(tv, e1, r.direction), det);
        if !(v128 >= 0 && v128 <= ONE as i128) {
            return None;
        }
        let t128: i128 = wide_ratio_exec(triple_exec(tv, e1, e2), det);
        let u: i64 = u128v as i64;
        let v: i64 = v128 as i64;
        let w: i64 = ONE - u - v;
        if !(w >= 0 && w <= ONE) {
            return None;
        }
        if !(t128 > t_min as i128 && t128 < t_max as i128 && t128 >= -(CMAX as i128) && t128
            <= CMAX as i128) {
            return None;
        }
        let t: i64 = t128 as i64;
        let p = r.point_at_parameter(t);
        if !(p.x > -CMAX && p.x < CMAX && p.y > -CMAX && p.y < CMAX && p.z > -CMAX && p.z < CMAX) {
            return None;
        }
        proof {
            lemma_fx_mul_bound(self.normal.0.x as int, v as int, TNMAX as int, 65536);
            lemma_fx_mul_bound(self.normal.0.y as int, v as int, TNMAX as int, 65536);
            lemma_fx_mul_bound(self.normal.0.z as int, v as int, TNMAX as int, 65536);
            lemma_fx_mul_bound(self.normal.1.x as int, u as int, TNMAX as int, 65536);
            lemma_fx_mul_bound(self.normal.1.y as int, u as int, TNMAX as int, 65536);
            lemma_fx_mul_bound(self.normal.1.z as int, u as int, TNMAX as int, 65536);
            lemma_fx_mul_bound(self.normal.2.x as int, w as int, TNMAX as int, 65536);
            lemma_fx_mul_bound(self.normal.2.y as int, w as int, TNMAX as int, 65536);
            lemma_fx_mul_bound(self.normal.2.z as int, w as int, TNMAX as int, 65536);
        }
        let m = Vec3 {
            x: mul_fx(self.normal.0.x, v) + mul_fx(self.normal.1.x, u) + mul_fx(
                self.normal.2.x,
                w,
            ),
            y: mul_fx(self.normal.0.y, v) + mul_fx(self.normal.1.y, u) + mul_fx(
                self.normal.2.y,
                w,
            ),
            z: mul_fx(self.normal.0.z, v) + mul_fx(self.normal.1.z, u) + mul_fx(
                self.normal.2.z,
                w,
            ),
        };
        let normal = match unit_dir(m) {
            None => {
                return None;
            },
            Some(n) => n,
        };
        proof {
            lemma_fx_mul_bound(self.uv.0.0 as int, v as int, 65536, 65536);
            lemma_fx_mul_bound(self.uv.0.1 as int, v as int, 65536, 65536);
            lemma_fx_mul_bound(self.uv.1.0 as int, u as int, 65536, 65536);
            lemma_fx_mul_bound(self.uv.1.1 as int, u as int, 65536, 65536);
            lemma_fx_mul_bound(self.uv.2.0 as int, w as int, 65536, 65536);
            lemma_fx_mul_bound(self.uv.2.1 as int, w as int, 65536, 65536);
            lemma_interp_unit(self.uv.0.0 as int, self.uv.1.0 as int, self.uv.2.0 as int, v as int, u as int, w as int);
            lemma_interp_unit(self.uv.0.1 as int, self.uv.1.1 as int, self.uv.2.1 as int, v as int, u as int, w as int);
        }
        let tu: i64 = mul_fx(self.uv.0.0, v) + mul_fx(self.uv.1.0, u) + mul_fx(self.uv.2.0, w);
        let tvv: i64 = mul_fx(self.uv.0.1, v) + mul_fx(self.uv.1.1, u) + mul_fx(self.uv.2.1, w);
        Some(HitRecord { t, p, u: tu, v: tvv, normal, texture: &self.texture })
    }
}

/// The unit direction of a vector, if its length is positive and the
/// result is in range.
pub fn unit_dir(v: Vec3) -> (res: Option<Vec3>)
    requires
        dvec_ok(v),
    ensures
        ({
            let len = isqrt_spec((dot_spec(v, v) * SCALE) as nat) as int;
            &&& (res is Some <==> len > 0 && abs_i(fx_div(v.x as int, len)) <= 3 * ONE && abs_i(
                fx_div(v.y as int, len),
            ) <= 3 * ONE && abs_i(fx_div(v.z as int, len)) <= 3 * ONE)
            &&& res matches Some(u) ==> u.x == fx_div(v.x as int, len) && u.y == fx_div(
                v.y as int,
                len,
            ) && u.z == fx_div(v.z as int, len) && abs_i(u.x as int) <= 3 * ONE && abs_i(
                u.y as int,
            ) <= 3 * ONE && abs_i(u.z as int) <= 3 * ONE
        }),
{
    let len = v.length();
    if len == 0 {
        return None;
    }
    proof {
        lemma_div_tz_abs(v.x * (SCALE as int), len as int);
        lemma_div_tz_abs(v.y * (SCALE as int), len as int);
        lemma_div_tz_abs(v.z * (SCALE as int), len as int);
        lemma_div_pos_is_pos(abs_i(v.x * (SCALE as int)), len as int);
        lemma_div_pos_is_pos(abs_i(v.y * (SCALE as int)), len as int);
        lemma_div_pos_is_pos(abs_i(v.z * (SCALE as int)), len as int);
        lemma_div_nonincreasing(abs_i(v.x * (SCALE as int)), len as int);
        lemma_div_nonincreasing(abs_i(v.y * (SCALE as int)), len as int);
        lemma_div_nonincreasing(abs_i(v.z * (SCALE as int)), len as int);
    }
    let ux = crate::fixed::div_fx(v.x, len);
    let uy = crate::fixed::div_fx(v.y, len);
    let uz = crate::fixed::div_fx(v.z, len);
    let lim: i64 = 3 * ONE;
    if ux >= -lim && ux <= lim && uy >= -lim && uy <= lim && uz >= -lim && uz <= lim {
        Some(Vec3 { x: ux, y: uy, z: uz })
    } else {
        None
    }
}

/// A convex combination of unit-range values stays in the unit range.
proof fn lemma_interp_unit(a: int, b: int, c: int, cv: int, cu: int, cw: int)
    requires
        0 <= a <= ONE as int,
        0 <= b <= ONE as int,
        0 <= c <= ONE as int,
        0 <= cv <= ONE as int,
        0 <= cu <= ONE as int,
        0 <= cw <= ONE as int,
        cv + cu + cw == ONE as int,
    ensures
        0 <= fx_mul(a, cv) + fx_mul(b, cu) + fx_mul(c, cw) <= ONE as int,
{
    assert(a * cv >= 0 && b * cu >= 0 && c * cw >= 0) by (nonlinear_arith)
        requires
            0 <= a && 0 <= b && 0 <= c && 0 <= cv && 0 <= cu && 0 <= cw,
    {}
    crate::fixed::lemma_div_tz_bounds(a * cv, SCALE as int);
    crate::fixed::lemma_div_tz_bounds(b * cu, SCALE as int);
    crate::fixed::lemma_div_tz_bounds(c * cw, SCALE as int);
    assert(0 <= fx_mul(a, cv) + fx_mul(b, cu) + fx_mul(c, cw) <= ONE as int) by (nonlinear_arith)
        requires
            0 <= a <= 65536 && 0 <= b <= 65536 && 0 <= c <= 65536,
            0 <= cv && 0 <= cu && 0 <= cw,
            cv + cu + cw == 65536,
            65536 * fx_mul(a, cv) <= a * cv < 65536 * (fx_mul(a, cv) + 1),
            65536 * fx_mul(b, cu) <= b * cu < 65536 * (fx_mul(b, cu) + 1),
            65536 * fx_mul(c, cw) <= c * cw < 65536 * (fx_mul(c, cw) + 1),
    {}
}

} // verus!
