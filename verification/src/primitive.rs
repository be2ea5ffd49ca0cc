//! The closed set of surface primitives, with one intersection entry
//! point, and the interval lemma on which the scene scans rest.

use vstd::prelude::*;
use crate::fixed::{
    SCALE, ONE, HALF, abs_i, div_tz, fx_mul, fx_div, mul_fx, div_fx, lemma_div_tz_mono,
    isqrt_spec, lemma_fx_mul_bound,
};
use crate::vec3::{Vec3, vec_ok, dot_spec, CMAX};
use crate::ray::{Ray, ray_wf, dir_ok, inv_of, SignVec, DMAX};
use crate::aabb::{AABB, aabb_wf, box_coord_ok};
use crate::hitable::{HitRecord, hit_ok, NMAX};
use crate::sphere::{
    Sphere, sphere_wf, sphere_hit_t, sphere_center, sphere_bbox, sph_t_ok, ray_point,
    sphere_normal, sphere_uv_spec,
};
use crate::texture::Texture;
use crate::triangle::{
    Triangle, triangle_wf, triangle_hit_t, triangle_bbox, tri_unit_normal, tri_uv_spec,
};

verus! {

/// A surface primitive: a shape, or a shape behind an affine wrapper.
pub enum Primitive {
    Sphere(Sphere),
    Triangle(Triangle),
    Translate(Translate),
    Scale(Scale),
    RotateY(RotateY),
}

/// A wrapped primitive rotated about the y axis; the sine and cosine
/// of the angle and the box of the rotated extent are precomputed at
/// construction.
pub struct RotateY {
    pub object: Box<Primitive>,
    pub sin_t: i64,
    pub cos_t: i64,
    pub bbox: AABB,
}

/// A wrapped primitive shifted by an offset; the box under the shift
/// is precomputed at construction.
pub struct Translate {
    pub object: Box<Primitive>,
    pub offset: Vec3,
    pub bbox: AABB,
}

/// A wrapped primitive scaled componentwise; the reciprocal factors
/// and the scaled box are precomputed at construction.
pub struct Scale {
    pub object: Box<Primitive>,
    pub factor: Vec3,
    pub inv_factor: Vec3,
    pub bbox: AABB,
}

pub open spec fn offset_ok(o: Vec3) -> bool {
    abs_i(o.x as int) <= 0x8_0000_0000 && abs_i(o.y as int) <= 0x8_0000_0000 && abs_i(o.z as int)
        <= 0x8_0000_0000
}

pub open spec fn factor_ok(f: Vec3) -> bool {
    &&& f.x != 0 && f.y != 0 && f.z != 0
    &&& abs_i(f.x as int) <= 8 * ONE && abs_i(f.y as int) <= 8 * ONE && abs_i(f.z as int) <= 8
        * ONE
}

pub open spec fn translate_bbox(child: AABB, offset: Vec3) -> AABB {
    AABB {
        low: Vec3 {
            x: (child.low.x + offset.x) as i64,
            y: (child.low.y + offset.y) as i64,
            z: (child.low.z + offset.z) as i64,
        },
        high: Vec3 {
            x: (child.high.x + offset.x) as i64,
            y: (child.high.y + offset.y) as i64,
            z: (child.high.z + offset.z) as i64,
        },
    }
}

pub open spec fn min_c(a: int, b: int) -> int {
    if a < b {
        a
    } else {
        b
    }
}

pub open spec fn max_c(a: int, b: int) -> int {
    if a > b {
        a
    } else {
        b
    }
}

pub open spec fn scale_bbox(child: AABB, f: Vec3) -> AABB {
    AABB {
        low: Vec3 {
            x: min_c(fx_mul(child.low.x as int, f.x as int), fx_mul(child.high.x as int, f.x as int)) as i64,
            y: min_c(fx_mul(child.low.y as int, f.y as int), fx_mul(child.high.y as int, f.y as int)) as i64,
            z: min_c(fx_mul(child.low.z as int, f.z as int), fx_mul(child.high.z as int, f.z as int)) as i64,
        },
        high: Vec3 {
            x: max_c(fx_mul(child.low.x as int, f.x as int), fx_mul(child.high.x as int, f.x as int)) as i64,
            y: max_c(fx_mul(child.low.y as int, f.y as int), fx_mul(child.high.y as int, f.y as int)) as i64,
            z: max_c(fx_mul(child.low.z as int, f.z as int), fx_mul(child.high.z as int, f.z as int)) as i64,
        },
    }
}

pub open spec fn prim_wf(p: Primitive) -> bool
    decreases p,
{
    match p {
        Primitive::Sphere(s) => sphere_wf(s),
        Primitive::Triangle(t) => triangle_wf(t),
        Primitive::Translate(t) => {
            &&& prim_wf(*t.object)
            &&& offset_ok(t.offset)
            &&& t.bbox == translate_bbox(prim_bbox_spec(*t.object), t.offset)
            &&& aabb_wf(t.bbox)
        },
        Primitive::Scale(s) => {
            &&& prim_wf(*s.object)
            &&& factor_ok(s.factor)
            &&& s.inv_factor.x == fx_div(ONE as int, s.factor.x as int)
            &&& s.inv_factor.y == fx_div(ONE as int, s.factor.y as int)
            &&& s.inv_factor.z == fx_div(ONE as int, s.factor.z as int)
            &&& s.bbox == scale_bbox(prim_bbox_spec(*s.object), s.factor)
            &&& aabb_wf(s.bbox)
        },
        Primitive::RotateY(ro) => {
            &&& prim_wf(*ro.object)
            &&& abs_i(ro.sin_t as int) <= ONE as int
            &&& abs_i(ro.cos_t as int) <= ONE as int
            &&& ro.bbox == rotate_bbox_fold(
                prim_bbox_spec(*ro.object),
                ro.sin_t as int,
                ro.cos_t as int,
                8,
            )
            &&& aabb_wf(ro.bbox)
        },
    }
}

/// The corners of a box, indexed by the bits of `k`.
pub open spec fn box_corner(b: AABB, k: int) -> Vec3 {
    Vec3 {
        x: if k % 2 == 0 {
            b.low.x
        } else {
            b.high.x
        },
        y: if (k / 2) % 2 == 0 {
            b.low.y
        } else {
            b.high.y
        },
        z: if k / 4 == 0 {
            b.low.z
        } else {
            b.high.z
        },
    }
}

/// One corner turned about the y axis, out of the child frame.
pub open spec fn rotated_corner(b: AABB, sin_t: int, cos_t: int, k: int) -> Vec3 {
    let c = box_corner(b, k);
    Vec3 {
        x: (fx_mul(cos_t, c.x as int) + fx_mul(sin_t, c.z as int)) as i64,
        y: c.y,
        z: (fx_mul(cos_t, c.z as int) - fx_mul(sin_t, c.x as int)) as i64,
    }
}

/// The merge of the first `k` rotated corners of a box.
pub open spec fn rotate_bbox_fold(b: AABB, sin_t: int, cos_t: int, k: int) -> AABB
    decreases k,
{
    if k <= 0 {
        crate::aabb::empty_aabb()
    } else {
        let p = rotated_corner(b, sin_t, cos_t, k - 1);
        crate::aabb::merge_spec(
            rotate_bbox_fold(b, sin_t, cos_t, k - 1),
            AABB { low: p, high: p },
        )
    }
}

/// Whether one rotated corner stays in the coordinate range.
pub open spec fn rotated_corner_ok(b: AABB, sin_t: int, cos_t: int, k: int) -> bool {
    let p = rotated_corner(b, sin_t, cos_t, k);
    box_coord_ok(p.x as int) && box_coord_ok(p.z as int)
}

/// One point rotated into the child frame of a y rotation.
pub open spec fn rot_in(v: Vec3, sin_t: int, cos_t: int) -> Vec3 {
    Vec3 {
        x: (fx_mul(cos_t, v.x as int) - fx_mul(sin_t, v.z as int)) as i64,
        y: v.y,
        z: (fx_mul(sin_t, v.x as int) + fx_mul(cos_t, v.z as int)) as i64,
    }
}

/// One point rotated back out of the child frame.
pub open spec fn rot_out(v: Vec3, sin_t: int, cos_t: int) -> Vec3 {
    Vec3 {
        x: (fx_mul(cos_t, v.x as int) + fx_mul(sin_t, v.z as int)) as i64,
        y: v.y,
        z: (fx_mul(cos_t, v.z as int) - fx_mul(sin_t, v.x as int)) as i64,
    }
}

/// The ray a rotated child sees: origin and direction turned into the
/// child frame, with the caches rebuilt.
pub open spec fn rotated_ray(r: Ray, sin_t: int, cos_t: int) -> Ray {
    let o = rot_in(r.origin, sin_t, cos_t);
    let d = rot_in(r.direction, sin_t, cos_t);
    Ray {
        origin: o,
        direction: d,
        wl: r.wl,
        inv_direction: Vec3 {
            x: inv_of(d.x as int) as i64,
            y: inv_of(d.y as int) as i64,
            z: inv_of(d.z as int) as i64,
        },
        sign: SignVec { x: d.x < 0, y: d.y < 0, z: d.z < 0 },
        ti: r.ti,
    }
}

/// The ray a translated child sees: the origin shifted back.
pub open spec fn shifted_ray(r: Ray, offset: Vec3) -> Ray {
    Ray {
        origin: Vec3 {
            x: (r.origin.x - offset.x) as i64,
            y: (r.origin.y - offset.y) as i64,
            z: (r.origin.z - offset.z) as i64,
        },
        direction: r.direction,
        wl: r.wl,
        inv_direction: r.inv_direction,
        sign: r.sign,
        ti: r.ti,
    }
}

/// The ray a scaled child sees: origin and direction divided by the
/// factors, with the caches rebuilt.
pub open spec fn scaled_ray(r: Ray, inv: Vec3) -> Ray {
    let o = Vec3 {
        x: fx_mul(r.origin.x as int, inv.x as int) as i64,
        y: fx_mul(r.origin.y as int, inv.y as int) as i64,
        z: fx_mul(r.origin.z as int, inv.z as int) as i64,
    };
    let d = Vec3 {
        x: fx_mul(r.direction.x as int, inv.x as int) as i64,
        y: fx_mul(r.direction.y as int, inv.y as int) as i64,
        z: fx_mul(r.direction.z as int, inv.z as int) as i64,
    };
    Ray {
        origin: o,
        direction: d,
        wl: r.wl,
        inv_direction: Vec3 {
            x: inv_of(d.x as int) as i64,
            y: inv_of(d.y as int) as i64,
            z: inv_of(d.z as int) as i64,
        },
        sign: SignVec { x: d.x < 0, y: d.y < 0, z: d.z < 0 },
        ti: r.ti,
    }
}

/// The unit vector a spec-level normalisation yields.
pub open spec fn unit_vec_spec(m: Vec3) -> Vec3 {
    let len = isqrt_spec((dot_spec(m, m) * SCALE) as nat) as int;
    Vec3 {
        x: fx_div(m.x as int, len) as i64,
        y: fx_div(m.y as int, len) as i64,
        z: fx_div(m.z as int, len) as i64,
    }
}

pub open spec fn unit_vec_ok(m: Vec3) -> bool {
    let len = isqrt_spec((dot_spec(m, m) * SCALE) as nat) as int;
    let u = unit_vec_spec(m);
    &&& len > 0
    &&& abs_i(u.x as int) <= 3 * ONE
    &&& abs_i(u.y as int) <= 3 * ONE
    &&& abs_i(u.z as int) <= 3 * ONE
}

/// The hit point a primitive reports at a parameter, in the outer
/// frame: wrappers transform their child's point back out.
pub open spec fn prim_hit_point(p: Primitive, r: Ray, t: int) -> Vec3
    decreases p,
{
    match p {
        Primitive::Sphere(_) => ray_point(r, t),
        Primitive::Triangle(_) => ray_point(r, t),
        Primitive::Translate(tr) => {
            let q = prim_hit_point(*tr.object, shifted_ray(r, tr.offset), t);
            Vec3 {
                x: (q.x + tr.offset.x) as i64,
                y: (q.y + tr.offset.y) as i64,
                z: (q.z + tr.offset.z) as i64,
            }
        },
        Primitive::Scale(sc) => {
            let q = prim_hit_point(*sc.object, scaled_ray(r, sc.inv_factor), t);
            Vec3 {
                x: fx_mul(q.x as int, sc.factor.x as int) as i64,
                y: fx_mul(q.y as int, sc.factor.y as int) as i64,
                z: fx_mul(q.z as int, sc.factor.z as int) as i64,
            }
        },
        Primitive::RotateY(ro) => {
            let q = prim_hit_point(
                *ro.object,
                rotated_ray(r, ro.sin_t as int, ro.cos_t as int),
                t,
            );
            rot_out(q, ro.sin_t as int, ro.cos_t as int)
        },
    }
}

/// The texture coordinates a primitive reports at a parameter; the
/// wrappers pass their child's through unchanged.
pub open spec fn prim_hit_uv(p: Primitive, r: Ray, t: int) -> (int, int)
    decreases p,
{
    match p {
        Primitive::Sphere(s) => sphere_uv_spec(
            sphere_normal(sphere_center(s, r.ti as int), s.radius as int, ray_point(r, t)),
        ),
        Primitive::Triangle(tr) => tri_uv_spec(tr, r),
        Primitive::Translate(tr) => prim_hit_uv(*tr.object, shifted_ray(r, tr.offset), t),
        Primitive::Scale(sc) => prim_hit_uv(*sc.object, scaled_ray(r, sc.inv_factor), t),
        Primitive::RotateY(ro) => prim_hit_uv(
            *ro.object,
            rotated_ray(r, ro.sin_t as int, ro.cos_t as int),
            t,
        ),
    }
}

/// The surface texture a primitive carries; the wrappers share their
/// child's.
pub open spec fn prim_texture(p: Primitive) -> Texture
    decreases p,
{
    match p {
        Primitive::Sphere(s) => s.texture,
        Primitive::Triangle(tr) => tr.texture,
        Primitive::Translate(tr) => prim_texture(*tr.object),
        Primitive::Scale(sc) => prim_texture(*sc.object),
        Primitive::RotateY(ro) => prim_texture(*ro.object),
    }
}

/// The normal a primitive reports at a parameter, in the outer frame.
pub open spec fn prim_hit_normal(p: Primitive, r: Ray, t: int) -> Vec3
    decreases p,
{
    match p {
        Primitive::Sphere(s) => sphere_normal(
            sphere_center(s, r.ti as int),
            s.radius as int,
            ray_point(r, t),
        ),
        Primitive::Triangle(tr) => tri_unit_normal(tr, r),
        Primitive::Translate(tr) => prim_hit_normal(*tr.object, shifted_ray(r, tr.offset), t),
        Primitive::Scale(sc) => {
            let n = prim_hit_normal(*sc.object, scaled_ray(r, sc.inv_factor), t);
            unit_vec_spec(
                Vec3 {
                    x: fx_mul(n.x as int, sc.factor.x as int) as i64,
                    y: fx_mul(n.y as int, sc.factor.y as int) as i64,
                    z: fx_mul(n.z as int, sc.factor.z as int) as i64,
                },
            )
        },
        Primitive::RotateY(ro) => {
            let n = prim_hit_normal(
                *ro.object,
                rotated_ray(r, ro.sin_t as int, ro.cos_t as int),
                t,
            );
            rot_out(n, ro.sin_t as int, ro.cos_t as int)
        },
    }
}

/// The accepted intersection parameter of a primitive over an open
/// interval. A wrapper accepts its child's parameter when the point
/// and normal transformed back into the outer frame stay in range.
pub open spec fn prim_hit_t(p: Primitive, r: Ray, t_min: int, t_max: int) -> Option<int>
    decreases p,
{
    match p {
        Primitive::Sphere(s) => sphere_hit_t(s, r, t_min, t_max),
        Primitive::Triangle(t) => triangle_hit_t(t, r, t_min, t_max),
        Primitive::Translate(tr) => {
            let r2 = shifted_ray(r, tr.offset);
            if !vec_ok(r2.origin) {
                Option::<int>::None
            } else {
                match prim_hit_t(*tr.object, r2, t_min, t_max) {
                    Option::Some(t) => {
                        if vec_ok(prim_hit_point(p, r, t)) {
                            Option::Some(t)
                        } else {
                            Option::<int>::None
                        }
                    },
                    Option::None => Option::<int>::None,
                }
            }
        },
        Primitive::Scale(sc) => {
            let r2 = scaled_ray(r, sc.inv_factor);
            if !(vec_ok(r2.origin) && dir_ok(r2.direction)) {
                Option::<int>::None
            } else {
                match prim_hit_t(*sc.object, r2, t_min, t_max) {
                    Option::Some(t) => {
                        let n = prim_hit_normal(*sc.object, r2, t);
                        let m = Vec3 {
                            x: fx_mul(n.x as int, sc.factor.x as int) as i64,
                            y: fx_mul(n.y as int, sc.factor.y as int) as i64,
                            z: fx_mul(n.z as int, sc.factor.z as int) as i64,
                        };
                        if vec_ok(prim_hit_point(p, r, t)) && unit_vec_ok(m) {
                            Option::Some(t)
                        } else {
                            Option::<int>::None
                        }
                    },
                    Option::None => Option::<int>::None,
                }
            }
        },
        Primitive::RotateY(ro) => {
            let r2 = rotated_ray(r, ro.sin_t as int, ro.cos_t as int);
            if !(vec_ok(r2.origin) && dir_ok(r2.direction)) {
                Option::<int>::None
            } else {
                match prim_hit_t(*ro.object, r2, t_min, t_max) {
                    Option::Some(t) => {
                        let nb = rot_out(
                            prim_hit_normal(*ro.object, r2, t),
                            ro.sin_t as int,
                            ro.cos_t as int,
                        );
                        if vec_ok(prim_hit_point(p, r, t)) && abs_i(nb.x as int) <= NMAX as int
                            && abs_i(nb.y as int) <= NMAX as int && abs_i(nb.z as int)
                            <= NMAX as int {
                            Option::Some(t)
                        } else {
                            Option::<int>::None
                        }
                    },
                    Option::None => Option::<int>::None,
                }
            }
        },
    }
}

pub open spec fn prim_bbox_spec(p: Primitive) -> AABB {
    match p {
        Primitive::Sphere(s) => sphere_bbox(s),
        Primitive::Triangle(t) => triangle_bbox(t),
        Primitive::Translate(t) => t.bbox,
        Primitive::Scale(s) => s.bbox,
        Primitive::RotateY(ro) => ro.bbox,
    }
}

impl Primitive {
    /// Intersect over the open interval; the result carries exactly the
    /// accepted parameter, hit point and normal.
    pub fn hit(&self, r: Ray, t_min: i64, t_max: i64) -> (res: Option<HitRecord>)
        requires
            prim_wf(*self),
            ray_wf(r),
            0 <= r.ti <= ONE,
        ensures
            res is Some <==> prim_hit_t(*self, r, t_min as int, t_max as int) is Some,
            res matches Some(h) ==> prim_hit_t(*self, r, t_min as int, t_max as int) == Some(
                h.t as int,
            ) && hit_ok(h) && t_min < h.t < t_max && h.p == prim_hit_point(*self, r, h.t as int)
                && h.normal == prim_hit_normal(*self, r, h.t as int) && (
            h.u as int,
            h.v as int,
            ) == prim_hit_uv(*self, r, h.t as int) && *h.texture == prim_texture(*self),
        decreases *self,
    {
        match self {
            Primitive::Sphere(s) => s.hit(r, t_min, t_max),
            Primitive::Triangle(t) => t.hit(r, t_min, t_max),
            Primitive::Translate(tr) => {
                let o2 = Vec3 {
                    x: r.origin.x - tr.offset.x,
                    y: r.origin.y - tr.offset.y,
                    z: r.origin.z - tr.offset.z,
                };
                if !(o2.x > -CMAX && o2.x < CMAX && o2.y > -CMAX && o2.y < CMAX && o2.z > -CMAX
                    && o2.z < CMAX) {
                    return None;
                }
                let r2 = Ray {
                    origin: o2,
                    direction: r.direction,
                    wl: r.wl,
                    inv_direction: r.inv_direction,
                    sign: r.sign,
                    ti: r.ti,
                };
                proof {
                    assert(r2 == shifted_ray(r, tr.offset));
                }
                match tr.object.hit(r2, t_min, t_max) {
                    None => None,
                    Some(h) => {
                        let p2 = Vec3 {
                            x: h.p.x + tr.offset.x,
                            y: h.p.y + tr.offset.y,
                            z: h.p.z + tr.offset.z,
                        };
                        if !(p2.x > -CMAX && p2.x < CMAX && p2.y > -CMAX && p2.y < CMAX && p2.z
                            > -CMAX && p2.z < CMAX) {
                            return None;
                        }
                        Some(
                            HitRecord {
                                t: h.t,
                                p: p2,
                                u: h.u,
                                v: h.v,
                                normal: h.normal,
                                texture: h.texture,
                            },
                        )
                    },
                }
            },
            Primitive::Scale(sc) => {
                proof {
                    lemma_scale_mul_fits(r.origin.x as int, sc.inv_factor.x as int);
                    lemma_scale_mul_fits(r.origin.y as int, sc.inv_factor.y as int);
                    lemma_scale_mul_fits(r.origin.z as int, sc.inv_factor.z as int);
                    lemma_scale_mul_fits(r.direction.x as int, sc.inv_factor.x as int);
                    lemma_scale_mul_fits(r.direction.y as int, sc.inv_factor.y as int);
                    lemma_scale_mul_fits(r.direction.z as int, sc.inv_factor.z as int);
                    lemma_inv_factor_bound(sc.factor.x as int);
                    lemma_inv_factor_bound(sc.factor.y as int);
                    lemma_inv_factor_bound(sc.factor.z as int);
                }
                let o2 = Vec3 {
                    x: mul_fx(r.origin.x, sc.inv_factor.x),
                    y: mul_fx(r.origin.y, sc.inv_factor.y),
                    z: mul_fx(r.origin.z, sc.inv_factor.z),
                };
                let d2 = Vec3 {
                    x: mul_fx(r.direction.x, sc.inv_factor.x),
                    y: mul_fx(r.direction.y, sc.inv_factor.y),
                    z: mul_fx(r.direction.z, sc.inv_factor.z),
                };
                if !(o2.x > -CMAX && o2.x < CMAX && o2.y > -CMAX && o2.y < CMAX && o2.z > -CMAX
                    && o2.z < CMAX && d2.x >= -DMAX && d2.x <= DMAX && d2.y >= -DMAX && d2.y
                    <= DMAX && d2.z >= -DMAX && d2.z <= DMAX) {
                    return None;
                }
                let r2 = Ray::new(o2, d2, r.wl, r.ti);
                proof {
                    assert(r2 == scaled_ray(r, sc.inv_factor));
                }
                match sc.object.hit(r2, t_min, t_max) {
                    None => None,
                    Some(h) => {
                        proof {
                            lemma_fx_mul_bound(h.normal.x as int, sc.factor.x as int, NMAX as int, 524288);
                            lemma_fx_mul_bound(h.normal.y as int, sc.factor.y as int, NMAX as int, 524288);
                            lemma_fx_mul_bound(h.normal.z as int, sc.factor.z as int, NMAX as int, 524288);
                            lemma_fx_mul_bound(h.p.x as int, sc.factor.x as int, CMAX as int, 524288);
                            lemma_fx_mul_bound(h.p.y as int, sc.factor.y as int, CMAX as int, 524288);
                            lemma_fx_mul_bound(h.p.z as int, sc.factor.z as int, CMAX as int, 524288);
                        }
                        let m = Vec3 {
                            x: mul_fx(h.normal.x, sc.factor.x),
                            y: mul_fx(h.normal.y, sc.factor.y),
                            z: mul_fx(h.normal.z, sc.factor.z),
                        };
                        let normal = match crate::triangle::unit_dir(m) {
                            None => {
                                return None;
                            },
                            Some(u) => u,
                        };
                        let p2 = Vec3 {
                            x: mul_fx(h.p.x, sc.factor.x),
                            y: mul_fx(h.p.y, sc.factor.y),
                            z: mul_fx(h.p.z, sc.factor.z),
                        };
                        if !(p2.x > -CMAX && p2.x < CMAX && p2.y > -CMAX && p2.y < CMAX && p2.z
                            > -CMAX && p2.z < CMAX) {
                            return None;
                        }
                        Some(
                            HitRecord {
                                t: h.t,
                                p: p2,
                                u: h.u,
                                v: h.v,
                                normal,
                                texture: h.texture,
                            },
                        )
                    },
                }
            },
            Primitive::RotateY(ro) => {
                proof {
                    lemma_rot_mul_fits(r.origin.x as int, ro.cos_t as int);
                    lemma_rot_mul_fits(r.origin.z as int, ro.sin_t as int);
                    lemma_rot_mul_fits(r.origin.x as int, ro.sin_t as int);
                    lemma_rot_mul_fits(r.origin.z as int, ro.cos_t as int);
                    lemma_rot_mul_fits(r.direction.x as int, ro.cos_t as int);
                    lemma_rot_mul_fits(r.direction.z as int, ro.sin_t as int);
                    lemma_rot_mul_fits(r.direction.x as int, ro.sin_t as int);
                    lemma_rot_mul_fits(r.direction.z as int, ro.cos_t as int);
                }
                let o2 = Vec3 {
                    x: mul_fx(ro.cos_t, r.origin.x) - mul_fx(ro.sin_t, r.origin.z),
                    y: r.origin.y,
                    z: mul_fx(ro.sin_t, r.origin.x) + mul_fx(ro.cos_t, r.origin.z),
                };
                let d2 = Vec3 {
                    x: mul_fx(ro.cos_t, r.direction.x) - mul_fx(ro.sin_t, r.direction.z),
                    y: r.direction.y,
                    z: mul_fx(ro.sin_t, r.direction.x) + mul_fx(ro.cos_t, r.direction.z),
                };
                if !(o2.x > -CMAX && o2.x < CMAX && o2.y > -CMAX && o2.y < CMAX && o2.z > -CMAX
                    && o2.z < CMAX && d2.x >= -DMAX && d2.x <= DMAX && d2.y >= -DMAX && d2.y
                    <= DMAX && d2.z >= -DMAX && d2.z <= DMAX) {
                    return None;
                }
                let r2 = Ray::new(o2, d2, r.wl, r.ti);
                proof {
                    assert(r2 == rotated_ray(r, ro.sin_t as int, ro.cos_t as int));
                }
                match ro.object.hit(r2, t_min, t_max) {
                    None => None,
                    Some(h) => {
                        proof {
                            lemma_rot_mul_fits(h.p.x as int, ro.cos_t as int);
                            lemma_rot_mul_fits(h.p.z as int, ro.sin_t as int);
                            lemma_rot_mul_fits(h.p.x as int, ro.sin_t as int);
                            lemma_rot_mul_fits(h.p.z as int, ro.cos_t as int);
                            lemma_rot_mul_fits(h.normal.x as int, ro.cos_t as int);
                            lemma_rot_mul_fits(h.normal.z as int, ro.sin_t as int);
                            lemma_rot_mul_fits(h.normal.x as int, ro.sin_t as int);
                            lemma_rot_mul_fits(h.normal.z as int, ro.cos_t as int);
                        }
                        let p2 = Vec3 {
                            x: mul_fx(ro.cos_t, h.p.x) + mul_fx(ro.sin_t, h.p.z),
                            y: h.p.y,
                            z: mul_fx(ro.cos_t, h.p.z) - mul_fx(ro.sin_t, h.p.x),
                        };
                        let n2 = Vec3 {
                            x: mul_fx(ro.cos_t, h.normal.x) + mul_fx(ro.sin_t, h.normal.z),
                            y: h.normal.y,
                            z: mul_fx(ro.cos_t, h.normal.z) - mul_fx(ro.sin_t, h.normal.x),
                        };
                        if !(p2.x > -CMAX && p2.x < CMAX && p2.y > -CMAX && p2.y < CMAX && p2.z
                            > -CMAX && p2.z < CMAX && n2.x >= -NMAX && n2.x <= NMAX && n2.y
                            >= -NMAX && n2.y <= NMAX && n2.z >= -NMAX && n2.z <= NMAX) {
                            return None;
                        }
                        Some(
                            HitRecord {
                                t: h.t,
                                p: p2,
                                u: h.u,
                                v: h.v,
                                normal: n2,
                                texture: h.texture,
                            },
                        )
                    },
                }
            },
        }
    }

    pub fn bbox(&self) -> (b: AABB)
        requires
            prim_wf(*self),
        ensures
            b == prim_bbox_spec(*self),
            aabb_wf(b),
    {
        match self {
            Primitive::Sphere(s) => s.bbox(),
            Primitive::Triangle(t) => t.bbox(),
            Primitive::Translate(t) => t.bbox,
            Primitive::Scale(s) => s.bbox,
            Primitive::RotateY(ro) => ro.bbox,
        }
    }

    /// The centroid used for hierarchy construction: a sphere's is the
    /// midpoint of its centres, any other primitive's the centre of its
    /// bounding box.
    pub fn centroid(&self) -> (c: Vec3)
        requires
            prim_wf(*self),
        ensures
            crate::aabb::box_vec_ok(c),
    {
        match self {
            Primitive::Sphere(s) => s.centroid(),
            Primitive::Triangle(t) => t.bbox().centroid(),
            Primitive::Translate(t) => t.bbox.centroid(),
            Primitive::Scale(s) => s.bbox.centroid(),
            Primitive::RotateY(ro) => ro.bbox.centroid(),
        }
    }
}

/// A product with a unit-bounded rotation coefficient stays in range.
proof fn lemma_rot_mul_fits(a: int, c: int)
    requires
        abs_i(a) <= 0x10_0000_0000,
        abs_i(c) <= ONE as int,
    ensures
        i64::MIN <= fx_mul(c, a) <= i64::MAX,
        abs_i(fx_mul(c, a)) <= 0x10_0000_0000,
{
    lemma_fx_mul_bound(c, a, 65536, 0x10_0000_0000);
}

/// Wrap a primitive so that it stands rotated about the y axis by the
/// angle whose sine and cosine are supplied; the stored box is the
/// merge of the child box's eight rotated corners. Nothing when any
/// rotated corner would leave the coordinate range.
pub fn rotate_y(object: Primitive, sin_t: i64, cos_t: i64) -> (res: Option<Primitive>)
    requires
        prim_wf(object),
        abs_i(sin_t as int) <= ONE as int,
        abs_i(cos_t as int) <= ONE as int,
    ensures
        res is Some <==> forall|k: int|
            0 <= k < 8 ==> rotated_corner_ok(
                prim_bbox_spec(object),
                sin_t as int,
                cos_t as int,
                k,
            ),
        res matches Some(p) ==> (prim_wf(p) && p is RotateY && p->RotateY_0.sin_t == sin_t
            && p->RotateY_0.cos_t == cos_t && *p->RotateY_0.object == object
            && p->RotateY_0.bbox == rotate_bbox_fold(
            prim_bbox_spec(object),
            sin_t as int,
            cos_t as int,
            8,
        )),
{
    let child_box = object.bbox();
    let mut bbox = AABB::empty();
    let mut corner: usize = 0;
    while corner < 8
        invariant
            corner <= 8,
            child_box == prim_bbox_spec(object),
            aabb_wf(child_box),
            abs_i(sin_t as int) <= ONE as int,
            abs_i(cos_t as int) <= ONE as int,
            aabb_wf(bbox),
            bbox == rotate_bbox_fold(child_box, sin_t as int, cos_t as int, corner as int),
            forall|k: int|
                0 <= k < corner as int ==> rotated_corner_ok(
                    child_box,
                    sin_t as int,
                    cos_t as int,
                    k,
                ),
        decreases 8 - corner,
    {
        let x = if corner % 2 == 0 {
            child_box.low.x
        } else {
            child_box.high.x
        };
        let y = if (corner / 2) % 2 == 0 {
            child_box.low.y
        } else {
            child_box.high.y
        };
        let z = if corner / 4 == 0 {
            child_box.low.z
        } else {
            child_box.high.z
        };
        proof {
            lemma_rot_mul_fits(x as int, cos_t as int);
            lemma_rot_mul_fits(z as int, sin_t as int);
            lemma_rot_mul_fits(x as int, sin_t as int);
            lemma_rot_mul_fits(z as int, cos_t as int);
            assert(Vec3 { x, y, z } == box_corner(child_box, corner as int));
        }
        let rx = mul_fx(cos_t, x) + mul_fx(sin_t, z);
        let rz = mul_fx(cos_t, z) - mul_fx(sin_t, x);
        if !(rx >= -CMAX && rx <= CMAX && rz >= -CMAX && rz <= CMAX) {
            proof {
                assert(!rotated_corner_ok(child_box, sin_t as int, cos_t as int, corner as int));
            }
            return None;
        }
        let p = Vec3 { x: rx, y, z: rz };
        proof {
            assert(p == rotated_corner(child_box, sin_t as int, cos_t as int, corner as int));
        }
        bbox = bbox.merge(AABB { low: p, high: p });
        corner = corner + 1;
    }
    Some(Primitive::RotateY(RotateY { object: Box::new(object), sin_t, cos_t, bbox }))
}

/// A product with a reciprocal factor stays well inside the wide range.
proof fn lemma_scale_mul_fits(a: int, inv: int)
    requires
        abs_i(a) <= 0x10_0000_0000,
        abs_i(inv) <= 0x1_0000_0000,
    ensures
        i64::MIN <= fx_mul(a, inv) <= i64::MAX,
        abs_i(fx_mul(a, inv)) <= 0x10_0000_0000_0000,
{
    lemma_fx_mul_bound(a, inv, 0x10_0000_0000, 0x1_0000_0000);
}

/// The reciprocal of a bounded nonzero factor is bounded.
proof fn lemma_inv_factor_bound(f: int)
    requires
        f != 0,
        abs_i(f) <= 8 * (ONE as int),
    ensures
        abs_i(fx_div(ONE as int, f)) <= 0x1_0000_0000,
{
    crate::fixed::lemma_div_tz_abs((ONE as int) * (SCALE as int), f);
    vstd::arithmetic::div_mod::lemma_div_pos_is_pos(0x1_0000_0000, abs_i(f));
    vstd::arithmetic::div_mod::lemma_div_nonincreasing(0x1_0000_0000, abs_i(f));
}

proof fn lemma_inv_factor_div_fits(f: int)
    requires
        f != 0,
        abs_i(f) <= 8 * (ONE as int),
    ensures
        i64::MIN <= fx_div(ONE as int, f) <= i64::MAX,
{
    lemma_inv_factor_bound(f);
}

fn in_box_range(v: Vec3) -> (r: bool)
    ensures
        r == (box_coord_ok(v.x as int) && box_coord_ok(v.y as int) && box_coord_ok(v.z as int)),
{
    v.x >= -CMAX && v.x <= CMAX && v.y >= -CMAX && v.y <= CMAX && v.z >= -CMAX && v.z <= CMAX
}

/// Wrap a primitive so that it stands shifted by an offset; nothing
/// when the shifted box would leave the coordinate range.
pub fn translate(object: Primitive, offset: Vec3) -> (res: Option<Primitive>)
    requires
        prim_wf(object),
        offset_ok(offset),
    ensures
        res is Some <==> aabb_wf(translate_bbox(prim_bbox_spec(object), offset)),
        res matches Some(p) ==> (prim_wf(p) && p is Translate && p->Translate_0.offset == offset
            && *p->Translate_0.object == object && p->Translate_0.bbox == translate_bbox(
            prim_bbox_spec(object),
            offset,
        )),
{
    let child_box = object.bbox();
    let bbox = AABB {
        low: Vec3 {
            x: child_box.low.x + offset.x,
            y: child_box.low.y + offset.y,
            z: child_box.low.z + offset.z,
        },
        high: Vec3 {
            x: child_box.high.x + offset.x,
            y: child_box.high.y + offset.y,
            z: child_box.high.z + offset.z,
        },
    };
    if !(in_box_range(bbox.low) && in_box_range(bbox.high)) {
        return None;
    }
    Some(Primitive::Translate(Translate { object: Box::new(object), offset, bbox }))
}

/// Wrap a primitive so that it stands scaled componentwise; nothing
/// when the scaled box would leave the coordinate range.
pub fn scale(object: Primitive, factor: Vec3) -> (res: Option<Primitive>)
    requires
        prim_wf(object),
        factor_ok(factor),
    ensures
        res is Some <==> aabb_wf(scale_bbox(prim_bbox_spec(object), factor)),
        res matches Some(p) ==> (prim_wf(p) && p is Scale && p->Scale_0.factor == factor
            && *p->Scale_0.object == object && p->Scale_0.bbox == scale_bbox(
            prim_bbox_spec(object),
            factor,
        )),
{
    proof {
        lemma_inv_factor_div_fits(factor.x as int);
        lemma_inv_factor_div_fits(factor.y as int);
        lemma_inv_factor_div_fits(factor.z as int);
    }
    let inv_factor = Vec3 {
        x: div_fx(ONE, factor.x),
        y: div_fx(ONE, factor.y),
        z: div_fx(ONE, factor.z),
    };
    let child_box = object.bbox();
    proof {
        lemma_fx_mul_bound(child_box.low.x as int, factor.x as int, CMAX as int, 524288);
        lemma_fx_mul_bound(child_box.low.y as int, factor.y as int, CMAX as int, 524288);
        lemma_fx_mul_bound(child_box.low.z as int, factor.z as int, CMAX as int, 524288);
        lemma_fx_mul_bound(child_box.high.x as int, factor.x as int, CMAX as int, 524288);
        lemma_fx_mul_bound(child_box.high.y as int, factor.y as int, CMAX as int, 524288);
        lemma_fx_mul_bound(child_box.high.z as int, factor.z as int, CMAX as int, 524288);
    }
    let sax = mul_fx(child_box.low.x, factor.x);
    let sbx = mul_fx(child_box.high.x, factor.x);
    let say = mul_fx(child_box.low.y, factor.y);
    let sby = mul_fx(child_box.high.y, factor.y);
    let saz = mul_fx(child_box.low.z, factor.z);
    let sbz = mul_fx(child_box.high.z, factor.z);
    let lox: i64 = if sax < sbx {
        sax
    } else {
        sbx
    };
    let loy: i64 = if say < sby {
        say
    } else {
        sby
    };
    let loz: i64 = if saz < sbz {
        saz
    } else {
        sbz
    };
    let hix: i64 = if sax > sbx {
        sax
    } else {
        sbx
    };
    let hiy: i64 = if say > sby {
        say
    } else {
        sby
    };
    let hiz: i64 = if saz > sbz {
        saz
    } else {
        sbz
    };
    let bbox = AABB {
        low: Vec3 { x: lox, y: loy, z: loz },
        high: Vec3 { x: hix, y: hiy, z: hiz },
    };
    if !(in_box_range(bbox.low) && in_box_range(bbox.high)) {
        return None;
    }
    Some(Primitive::Scale(Scale { object: Box::new(object), factor, inv_factor, bbox }))
}

/// How an intersection behaves as the far end of the interval moves:
/// a miss on a wide interval is a miss on any narrower one; a hit
/// survives narrowing exactly while it stays inside; and a hit always
/// lies inside its own interval.
pub proof fn lemma_prim_hit_shrink(p: Primitive, r: Ray, t_min: int, big: int, small: int)
    requires
        small <= big,
    ensures
        prim_hit_t(p, r, t_min, big) is None ==> prim_hit_t(p, r, t_min, small) is None,
        prim_hit_t(p, r, t_min, big) matches Some(t) ==> t_min < t < big && (if t < small {
            prim_hit_t(p, r, t_min, small) == Some(t)
        } else {
            prim_hit_t(p, r, t_min, small) is None
        }),
    decreases p,
{
    match p {
        Primitive::Sphere(s) => {
            let a = dot_spec(r.direction, r.direction);
            if a >= 1 {
                let c = sphere_center(s, r.ti as int);
                let oc = crate::sphere::vsub(r.origin, c);
                let b = dot_spec(oc, r.direction);
                let cc = dot_spec(oc, oc) - fx_mul(s.radius as int, s.radius as int);
                let disc = b * b - a * cc;
                if disc > 0 {
                    let sq = isqrt_spec(disc as nat) as int;
                    assert((-b - sq) * (SCALE as int) <= (-b + sq) * (SCALE as int))
                        by (nonlinear_arith)
                        requires
                            sq >= 0,
                            SCALE == 65536,
                    {}
                    lemma_div_tz_mono((-b - sq) * (SCALE as int), (-b + sq) * (SCALE as int), a);
                }
            }
        },
        Primitive::Triangle(_) => {},
        Primitive::Translate(tr) => {
            lemma_prim_hit_shrink(*tr.object, shifted_ray(r, tr.offset), t_min, big, small);
        },
        Primitive::Scale(sc) => {
            lemma_prim_hit_shrink(*sc.object, scaled_ray(r, sc.inv_factor), t_min, big, small);
        },
        Primitive::RotateY(ro) => {
            lemma_prim_hit_shrink(
                *ro.object,
                rotated_ray(r, ro.sin_t as int, ro.cos_t as int),
                t_min,
                big,
                small,
            );
        },
    }
}

} // verus!
