//! Spheres, possibly in linear motion over the shutter interval, and
//! their exact ray intersection.

use vstd::prelude::*;
use vstd::arithmetic::div_mod::{
    lemma_div_pos_is_pos, lemma_div_nonincreasing, lemma_div_is_ordered,
    lemma_div_is_ordered_by_denominator,
};
use crate::fixed::{
    SCALE, ONE, HALF, abs_i, div_tz, fx_mul, fx_div, mul_fx, div_fx, div_trunc_i128, isqrt_spec,
    isqrt_u128, lemma_abs_mul_le, lemma_div_tz_abs, lemma_fx_mul_bound, lemma_isqrt_exists,
    lemma_isqrt_unique,
};
use crate::vec3::{Vec3, vec_ok, dvec_ok, coord_ok, dot_spec, CMAX};
use crate::ray::{Ray, ray_wf, DMAX};
use crate::aabb::{AABB, aabb_wf, merge_spec, box_vec_ok};
use crate::texture::{Texture, texture_ok};
use crate::hitable::{HitRecord, hit_ok, NMAX};

verus! {

/// Largest sphere-centre coordinate, leaving room for motion.
pub const SPH_CMAX: i64 = 0x8_0000_0000;

/// Largest motion between the two centres, and largest radius.
pub const SPH_RMAX: i64 = 0x1_0000_0000;

#[derive(Clone, PartialEq, Eq, Debug)]
pub struct Sphere {
    pub center0: Vec3,
    pub center1: Vec3,
    pub t0: i64,
    pub t1: i64,
    pub radius: i64,
    pub texture: Texture,
}

pub open spec fn sphere_wf(s: Sphere) -> bool {
    &&& abs_i(s.center0.x as int) <= SPH_CMAX as int
    &&& abs_i(s.center0.y as int) <= SPH_CMAX as int
    &&& abs_i(s.center0.z as int) <= SPH_CMAX as int
    &&& abs_i(s.center1.x as int - s.center0.x as int) <= SPH_RMAX as int
    &&& abs_i(s.center1.y as int - s.center0.y as int) <= SPH_RMAX as int
    &&& abs_i(s.center1.z as int - s.center0.z as int) <= SPH_RMAX as int
    &&& 0 <= s.t0
    &&& s.t0 < s.t1 <= ONE
    &&& s.radius != 0
    &&& abs_i(s.radius as int) <= SPH_RMAX as int
    &&& texture_ok(s.texture)
}

impl Sphere {
    /// A stationary sphere.
    pub fn new(center: Vec3, radius: i64, texture: Texture) -> (s: Sphere)
        requires
            abs_i(center.x as int) <= SPH_CMAX as int,
            abs_i(center.y as int) <= SPH_CMAX as int,
            abs_i(center.z as int) <= SPH_CMAX as int,
            radius != 0,
            abs_i(radius as int) <= SPH_RMAX as int,
            texture_ok(texture),
        ensures
            s.center0 == center && s.center1 == center,
            s.t0 == 0 && s.t1 == ONE,
            s.radius == radius,
            s.texture == texture,
            sphere_wf(s),
    {
        Sphere { center0: center, center1: center, t0: 0, t1: ONE, radius, texture }
    }

    /// A sphere whose centre moves linearly over the shutter interval.
    pub fn new_moving(
        center0: Vec3,
        center1: Vec3,
        t0: i64,
        t1: i64,
        radius: i64,
        texture: Texture,
    ) -> (s: Sphere)
        requires
            abs_i(center0.x as int) <= SPH_CMAX as int,
            abs_i(center0.y as int) <= SPH_CMAX as int,
            abs_i(center0.z as int) <= SPH_CMAX as int,
            abs_i(center1.x as int - center0.x as int) <= SPH_RMAX as int,
            abs_i(center1.y as int - center0.y as int) <= SPH_RMAX as int,
            abs_i(center1.z as int - center0.z as int) <= SPH_RMAX as int,
            0 <= t0,
            t0 < t1 <= ONE,
            radius != 0,
            abs_i(radius as int) <= SPH_RMAX as int,
            texture_ok(texture),
        ensures
            s.center0 == center0 && s.center1 == center1,
            s.t0 == t0 && s.t1 == t1,
            s.radius == radius,
            s.texture == texture,
            sphere_wf(s),
    {
        Sphere { center0, center1, t0, t1, radius, texture }
    }

    /// The midpoint of the two centres.
    pub fn centroid(&self) -> (c: Vec3)
        requires
            sphere_wf(*self),
        ensures
            c.x == fx_mul(self.center0.x + self.center1.x, HALF as int),
            c.y == fx_mul(self.center0.y + self.center1.y, HALF as int),
            c.z == fx_mul(self.center0.z + self.center1.z, HALF as int),
            box_vec_ok(c),
    {
        proof {
            lemma_fx_mul_bound(self.center0.x + self.center1.x, HALF as int, 0x11_0000_0000, 32768);
            lemma_fx_mul_bound(self.center0.y + self.center1.y, HALF as int, 0x11_0000_0000, 32768);
            lemma_fx_mul_bound(self.center0.z + self.center1.z, HALF as int, 0x11_0000_0000, 32768);
        }
        Vec3 {
            x: mul_fx(self.center0.x + self.center1.x, HALF),
            y: mul_fx(self.center0.y + self.center1.y, HALF),
            z: mul_fx(self.center0.z + self.center1.z, HALF),
        }
    }

    /// The bounding box: the merge of the two extreme positions, each
    /// grown by the magnitude of the radius.
    pub fn bbox(&self) -> (b: AABB)
        requires
            sphere_wf(*self),
        ensures
            b == sphere_bbox(*self),
            aabb_wf(b),
    {
        let ar: i64 = if self.radius < 0 {
            -self.radius
        } else {
            self.radius
        };
        let b0 = AABB {
            low: Vec3 {
                x: self.center0.x - ar,
                y: self.center0.y - ar,
                z: self.center0.z - ar,
            },
            high: Vec3 {
                x: self.center0.x + ar,
                y: self.center0.y + ar,
                z: self.center0.z + ar,
            },
        };
        let b1 = AABB {
            low: Vec3 {
                x: self.center1.x - ar,
                y: self.center1.y - ar,
                z: self.center1.z - ar,
            },
            high: Vec3 {
                x: self.center1.x + ar,
                y: self.center1.y + ar,
                z: self.center1.z + ar,
            },
        };
        b0.merge(b1)
    }
}

/// The bounding box of a sphere, as a specification value.
pub open spec fn sphere_bbox(s: Sphere) -> AABB {
    let ar = abs_i(s.radius as int);
    let b0 = AABB {
        low: Vec3 {
            x: (s.center0.x - ar) as i64,
            y: (s.center0.y - ar) as i64,
            z: (s.center0.z - ar) as i64,
        },
        high: Vec3 {
            x: (s.center0.x + ar) as i64,
            y: (s.center0.y + ar) as i64,
            z: (s.center0.z + ar) as i64,
        },
    };
    let b1 = AABB {
        low: Vec3 {
            x: (s.center1.x - ar) as i64,
            y: (s.center1.y - ar) as i64,
            z: (s.center1.z - ar) as i64,
        },
        high: Vec3 {
            x: (s.center1.x + ar) as i64,
            y: (s.center1.y + ar) as i64,
            z: (s.center1.z + ar) as i64,
        },
    };
    merge_spec(b0, b1)
}

/// Fraction of the shutter interval a time lies at; times outside the
/// interval clamp to its ends, so the centre never leaves its path.
pub open spec fn sph_tf(s: Sphere, ti: int) -> int {
    let tc = if ti < s.t0 {
        s.t0 as int
    } else if ti > s.t1 {
        s.t1 as int
    } else {
        ti
    };
    div_tz((tc - s.t0) * (SCALE as int), s.t1 - s.t0)
}

/// The centre at a time: the linear interpolation of the two centres.
pub open spec fn sphere_center(s: Sphere, ti: int) -> Vec3 {
    let tf = sph_tf(s, ti);
    Vec3 {
        x: (s.center0.x + fx_mul(s.center1.x - s.center0.x, tf)) as i64,
        y: (s.center0.y + fx_mul(s.center1.y - s.center0.y, tf)) as i64,
        z: (s.center0.z + fx_mul(s.center1.z - s.center0.z, tf)) as i64,
    }
}

/// The point a ray reaches at parameter `t`.
pub open spec fn ray_point(r: Ray, t: int) -> Vec3 {
    Vec3 {
        x: (r.origin.x + fx_mul(r.direction.x as int, t)) as i64,
        y: (r.origin.y + fx_mul(r.direction.y as int, t)) as i64,
        z: (r.origin.z + fx_mul(r.direction.z as int, t)) as i64,
    }
}

/// The outward normal at a point of the sphere: the offset from the
/// centre divided by the signed radius, so hollow spheres point inward.
pub open spec fn sphere_normal(c: Vec3, radius: int, p: Vec3) -> Vec3 {
    Vec3 {
        x: fx_div(p.x - c.x, radius) as i64,
        y: fx_div(p.y - c.y, radius) as i64,
        z: fx_div(p.z - c.z, radius) as i64,
    }
}

pub open spec fn vsub(a: Vec3, b: Vec3) -> Vec3 {
    Vec3 { x: (a.x - b.x) as i64, y: (a.y - b.y) as i64, z: (a.z - b.z) as i64 }
}

/// Whether a candidate parameter is accepted: inside the open interval,
/// within the coordinate range, and with the derived point and normal
/// in range too.
pub open spec fn sph_t_ok(s: Sphere, r: Ray, t: int, t_min: int, t_max: int) -> bool {
    let c = sphere_center(s, r.ti as int);
    let p = ray_point(r, t);
    let n = sphere_normal(c, s.radius as int, p);
    &&& t_min < t < t_max
    &&& abs_i(t) <= CMAX as int
    &&& vec_ok(p)
    &&& abs_i(n.x as int) <= NMAX as int
    &&& abs_i(n.y as int) <= NMAX as int
    &&& abs_i(n.z as int) <= NMAX as int
}

/// The parameter at which a ray first meets a sphere within an
/// interval: the smaller quadratic root if accepted, else the larger,
/// else nothing. A nonpositive discriminant or a degenerate direction
/// is a miss.
pub open spec fn sphere_hit_t(s: Sphere, r: Ray, t_min: int, t_max: int) -> Option<int> {
    let c = sphere_center(s, r.ti as int);
    let oc = vsub(r.origin, c);
    let a = dot_spec(r.direction, r.direction);
    let b = dot_spec(oc, r.direction);
    let cc = dot_spec(oc, oc) - fx_mul(s.radius as int, s.radius as int);
    let disc = b * b - a * cc;
    if a >= 1 && disc > 0 {
        let sq = isqrt_spec(disc as nat) as int;
        let ta = div_tz((-b - sq) * (SCALE as int), a);
        let tb = div_tz((-b + sq) * (SCALE as int), a);
        if sph_t_ok(s, r, ta, t_min, t_max) {
            Some(ta)
        } else if sph_t_ok(s, r, tb, t_min, t_max) {
            Some(tb)
        } else {
            Option::<int>::None
        }
    } else {
        Option::<int>::None
    }
}

impl Sphere {
    /// The centre of the sphere at the ray's time.
    fn center_at(&self, ti: i64) -> (c: Vec3)
        requires
            sphere_wf(*self),
            0 <= ti <= ONE,
        ensures
            c == sphere_center(*self, ti as int),
            abs_i(c.x as int) <= 0xA_0000_0000,
            abs_i(c.y as int) <= 0xA_0000_0000,
            abs_i(c.z as int) <= 0xA_0000_0000,
    {
        let tc: i64 = if ti < self.t0 {
            self.t0
        } else if ti > self.t1 {
            self.t1
        } else {
            ti
        };
        proof {
            lemma_div_pos_is_pos((tc - self.t0) * (SCALE as int), self.t1 - self.t0);
            assert((tc - self.t0) * (SCALE as int) <= (self.t1 - self.t0) * (SCALE as int))
                by (nonlinear_arith)
                requires
                    self.t0 <= tc <= self.t1,
                    SCALE == 65536,
            {}
            lemma_div_is_ordered(
                (tc - self.t0) * (SCALE as int),
                (self.t1 - self.t0) * (SCALE as int),
                self.t1 - self.t0,
            );
            vstd::arithmetic::div_mod::lemma_div_multiples_vanish(
                SCALE as int,
                self.t1 - self.t0,
            );
            assert((self.t1 - self.t0) * (SCALE as int) == (self.t1 - self.t0) as int * (
            SCALE as int)) by (nonlinear_arith) {}
            assert(((self.t1 - self.t0) * (SCALE as int)) / (self.t1 as int - self.t0 as int)
                == SCALE as int) by (nonlinear_arith)
                requires
                    self.t0 < self.t1,
                    ((self.t1 as int - self.t0 as int) * (SCALE as int)) / (self.t1 as int
                        - self.t0 as int) == SCALE as int,
            {}
        }
        let tf: i64 = div_trunc_i128(
            ((tc - self.t0) as i128) * (SCALE as i128),
            (self.t1 - self.t0) as i128,
        ) as i64;
        proof {
            assert(0 <= tf <= 65536);
        }
        proof {
            lemma_fx_mul_bound(self.center1.x - self.center0.x, tf as int, SPH_RMAX as int, 65536);
            lemma_fx_mul_bound(self.center1.y - self.center0.y, tf as int, SPH_RMAX as int, 65536);
            lemma_fx_mul_bound(self.center1.z - self.center0.z, tf as int, SPH_RMAX as int, 65536);
        }
        Vec3 {
            x: self.center0.x + mul_fx(self.center1.x - self.center0.x, tf),
            y: self.center0.y + mul_fx(self.center1.y - self.center0.y, tf),
            z: self.center0.z + mul_fx(self.center1.z - self.center0.z, tf),
        }
    }

    /// Intersect a ray with the sphere over the open interval
    /// `(t_min, t_max)`: exactly the first accepted quadratic root.
    pub fn hit(&self, r: Ray, t_min: i64, t_max: i64) -> (res: Option<HitRecord>)
        requires
            sphere_wf(*self),
            ray_wf(r),
            0 <= r.ti <= ONE,
        ensures
            res is Some <==> sphere_hit_t(*self, r, t_min as int, t_max as int) is Some,
            res matches Some(h) ==> {
                &&& sphere_hit_t(*self, r, t_min as int, t_max as int) == Some(h.t as int)
                &&& h.p == ray_point(r, h.t as int)
                &&& h.normal == sphere_normal(
                    sphere_center(*self, r.ti as int),
                    self.radius as int,
                    h.p,
                )
                &&& (h.u as int, h.v as int) == sphere_uv_spec(h.normal)
                &&& h.texture == &self.texture
                &&& hit_ok(h)
            },
    {
        let c = self.center_at(r.ti);
        let oc = Vec3 { x: r.origin.x - c.x, y: r.origin.y - c.y, z: r.origin.z - c.z };
        let a: i64 = r.direction.dot(r.direction);
        let b: i64 = oc.dot(r.direction);
        proof {
            lemma_fx_mul_bound(self.radius as int, self.radius as int, SPH_RMAX as int, SPH_RMAX as int);
        }
        let cc: i64 = oc.dot(oc) - mul_fx(self.radius, self.radius);
        proof {
            lemma_abs_mul_le(b as int, b as int, 0x1000_0000_0000_0000, 0x1000_0000_0000_0000);
            lemma_abs_mul_le(a as int, cc as int, 0x1000_0000_0000_0000, 0x2000_0000_0000_0000);
        }
        let disc: i128 = (b as i128) * (b as i128) - (a as i128) * (cc as i128);
        if a >= 1 && disc > 0 {
            let sq: i64 = crate::fixed::sqrt_wide(disc);
            let ta = self.try_root(r, c, -b, sq, a, t_min, t_max, true);
            if ta.is_some() {
                return ta;
            }
            self.try_root(r, c, -b, sq, a, t_min, t_max, false)
        } else {
            None
        }
    }

    /// Check one root of the quadratic; `minus` picks the near one.
    #[verifier::spinoff_prover]
    fn try_root(
        &self,
        r: Ray,
        c: Vec3,
        nb: i64,
        sq: i64,
        a: i64,
        t_min: i64,
        t_max: i64,
        minus: bool,
    ) -> (res: Option<HitRecord>)
        requires
            sphere_wf(*self),
            ray_wf(r),
            0 <= r.ti <= ONE,
            c == sphere_center(*self, r.ti as int),
            abs_i(c.x as int) <= 0xA_0000_0000,
            abs_i(c.y as int) <= 0xA_0000_0000,
            abs_i(c.z as int) <= 0xA_0000_0000,
            abs_i(nb as int) <= 0x2000_0000_0000_0000,
            0 <= sq <= 0x8000_0000_0000_0000,
            1 <= a,
            abs_i(a as int) <= 0x1000_0000_0000_0000,
        ensures
            ({
                let t = if minus {
                    div_tz((nb - sq) * (SCALE as int), a as int)
                } else {
                    div_tz((nb + sq) * (SCALE as int), a as int)
                };
                &&& (res is Some <==> sph_t_ok(*self, r, t, t_min as int, t_max as int))
                &&& res matches Some(h) ==> {
                    &&& h.t == t
                    &&& h.p == ray_point(r, h.t as int)
                    &&& h.normal == sphere_normal(c, self.radius as int, h.p)
                    &&& (h.u as int, h.v as int) == sphere_uv_spec(h.normal)
                    &&& h.texture == &self.texture
                    &&& hit_ok(h)
                }
            }),
    {
        let num: i128 = if minus {
            (nb as i128) - (sq as i128)
        } else {
            (nb as i128) + (sq as i128)
        };
        let t128: i128 = div_trunc_i128(num * 65536, a as i128);
        if !(t128 > t_min as i128 && t128 < t_max as i128 && t128 >= -(CMAX as i128) && t128
            <= CMAX as i128) {
            return None;
        }
        let t: i64 = t128 as i64;
        let p = r.point_at_parameter(t);
        if !(p.x > -CMAX && p.x < CMAX && p.y > -CMAX && p.y < CMAX && p.z > -CMAX && p.z < CMAX) {
            return None;
        }
        proof {
            lemma_div_tz_abs((p.x - c.x) * (SCALE as int), self.radius as int);
            lemma_div_tz_abs((p.y - c.y) * (SCALE as int), self.radius as int);
            lemma_div_tz_abs((p.z - c.z) * (SCALE as int), self.radius as int);
            lemma_div_pos_is_pos(abs_i((p.x - c.x) * (SCALE as int)), abs_i(self.radius as int));
            lemma_div_pos_is_pos(abs_i((p.y - c.y) * (SCALE as int)), abs_i(self.radius as int));
            lemma_div_pos_is_pos(abs_i((p.z - c.z) * (SCALE as int)), abs_i(self.radius as int));
            lemma_div_nonincreasing(abs_i((p.x - c.x) * (SCALE as int)), abs_i(self.radius as int));
            lemma_div_nonincreasing(abs_i((p.y - c.y) * (SCALE as int)), abs_i(self.radius as int));
            lemma_div_nonincreasing(abs_i((p.z - c.z) * (SCALE as int)), abs_i(self.radius as int));
        }
        let nx: i64 = div_fx(p.x - c.x, self.radius);
        let ny: i64 = div_fx(p.y - c.y, self.radius);
        let nz: i64 = div_fx(p.z - c.z, self.radius);
        if !(nx >= -NMAX && nx <= NMAX && ny >= -NMAX && ny <= NMAX && nz >= -NMAX && nz <= NMAX) {
            return None;
        }
        let normal = Vec3 { x: nx, y: ny, z: nz };
        let (u, v) = sphere_uv(normal);
        Some(HitRecord { t, p, u, v, normal, texture: &self.texture })
    }
}

/// The arctangent approximation over the unit interval, in turns.
pub open spec fn atan_frac_spec(q: int) -> int {
    fx_mul(q, 8192 + fx_mul(2848, ONE as int - q))
}

/// The angle of `(x, y)` from the positive x axis, in turns.
pub open spec fn atan2_turns_spec(y: int, x: int) -> int {
    if y == 0 {
        if x < 0 {
            HALF as int
        } else {
            0
        }
    } else {
        let ay = abs_i(y);
        let ax = abs_i(x);
        let base = if ay <= ax {
            atan_frac_spec(fx_div(ay, ax))
        } else {
            16384 - atan_frac_spec(fx_div(ax, ay))
        };
        let quad = if x < 0 {
            (HALF as int) - base
        } else {
            base
        };
        if y < 0 {
            -quad
        } else {
            quad
        }
    }
}

/// The latitude coordinate of a height, in the unit interval.
pub open spec fn asin_v_spec(y: int) -> int {
    let ay0 = abs_i(y);
    let ay = if ay0 > ONE as int {
        ONE as int
    } else {
        ay0
    };
    let s = isqrt_spec(((ONE as int - ay) * (SCALE as int)) as nat) as int;
    let poly = (HALF as int) - fx_mul(ay, 4477 - fx_mul(ay, 1856 - fx_mul(ay, 1047)));
    let half_arc = fx_mul(s, poly);
    if y >= 0 {
        ONE as int - half_arc
    } else {
        half_arc
    }
}

/// The texture coordinates of a unit normal: longitude from the angle
/// in the xz plane, latitude from the height.
pub open spec fn sphere_uv_spec(n: Vec3) -> (int, int) {
    ((HALF as int) - atan2_turns_spec(n.z as int, n.x as int), asin_v_spec(n.y as int))
}

/// Texture coordinates of a point on the sphere from its unit normal:
/// longitude from the angle in the xz plane, latitude from the height.
/// Both lie in `[0, 1]`; the poles and the four axis crossings land on
/// their exact coordinates.
pub fn sphere_uv(n: Vec3) -> (uv: (i64, i64))
    requires
        abs_i(n.x as int) <= NMAX as int,
        abs_i(n.y as int) <= NMAX as int,
        abs_i(n.z as int) <= NMAX as int,
    ensures
        (uv.0 as int, uv.1 as int) == sphere_uv_spec(n),
        0 <= uv.0 <= ONE,
        0 <= uv.1 <= ONE,
{
    let u: i64 = HALF - atan2_turns(n.z, n.x);
    let v: i64 = asin_v(n.y);
    (u, v)
}

/// The angle of `(x, y)` from the positive x axis, in turns, in
/// `[-1/2, 1/2]`; zero when `y` is zero and `x` is not negative, a half
/// turn when `y` is zero and `x` is negative, and a quarter turn on the
/// y axis. In between, an arctangent approximation.
pub fn atan2_turns(y: i64, x: i64) -> (r: i64)
    requires
        abs_i(y as int) <= NMAX as int,
        abs_i(x as int) <= NMAX as int,
    ensures
        r == atan2_turns_spec(y as int, x as int),
        -HALF <= r <= HALF,
        y == 0 && x >= 0 ==> r == 0,
        y == 0 && x < 0 ==> r == HALF,
        x == 0 && y > 0 ==> r == 16384,
        x == 0 && y < 0 ==> r == -16384,
{
    if y == 0 {
        if x < 0 {
            HALF
        } else {
            0
        }
    } else {
        let ay: i64 = if y < 0 {
            -y
        } else {
            y
        };
        let ax: i64 = if x < 0 {
            -x
        } else {
            x
        };
        let base: i64 = if ay <= ax {
            proof {
                lemma_div_tz_abs(ay * (SCALE as int), ax as int);
                lemma_div_pos_is_pos(abs_i(ay * (SCALE as int)), ax as int);
                lemma_ratio_le_one(ay as int, ax as int);
            }
            atan_frac(div_fx(ay, ax))
        } else {
            proof {
                lemma_div_tz_abs(ax * (SCALE as int), ay as int);
                lemma_div_pos_is_pos(abs_i(ax * (SCALE as int)), ay as int);
                lemma_ratio_le_one(ax as int, ay as int);
            }
            16384 - atan_frac(div_fx(ax, ay))
        };
        let quad: i64 = if x < 0 {
            HALF - base
        } else {
            base
        };
        if y < 0 {
            -quad
        } else {
            quad
        }
    }
}

/// A ratio of magnitudes with the smaller on top stays within one.
proof fn lemma_ratio_le_one(num: int, den: int)
    requires
        0 <= num <= den,
        1 <= den,
    ensures
        0 <= div_tz(num * (SCALE as int), den) <= ONE as int,
        num == 0 ==> div_tz(num * (SCALE as int), den) == 0,
{
    lemma_div_pos_is_pos(num * (SCALE as int), den);
    if num == 0 {
        vstd::arithmetic::div_mod::lemma_div_of0(den);
    }
    assert(num * (SCALE as int) <= den * (SCALE as int)) by (nonlinear_arith)
        requires
            0 <= num <= den,
            SCALE == 65536,
    {}
    lemma_div_is_ordered(num * (SCALE as int), den * (SCALE as int), den);
    vstd::arithmetic::div_mod::lemma_div_multiples_vanish(SCALE as int, den);
    assert(den * (SCALE as int) == (SCALE as int) * den) by (nonlinear_arith) {}
}

/// Arctangent of a fraction in `[0, 1]`, in turns: a quadratic
/// approximation that is exact at zero and at one (an eighth turn).
fn atan_frac(q: i64) -> (r: i64)
    requires
        0 <= q <= ONE,
    ensures
        r == atan_frac_spec(q as int),
        0 <= r <= 16384,
        q == 0 ==> r == 0,
        q == ONE ==> r == 8192,
{
    proof {
        lemma_fx_mul_bound(2848, ONE as int - q, 2848, 65536);
        lemma_fx_mul_bound(q as int, 8192 + fx_mul(2848, ONE as int - q), 65536, 11040);
        lemma_fx_mul_pos2(2848, ONE as int - q);
        lemma_fx_mul_pos2(q as int, 8192 + fx_mul(2848, ONE as int - q));
    }
    mul_fx(q, 8192 + mul_fx(2848, ONE - q))
}

/// A fixed-point product of nonnegative factors is nonnegative.
proof fn lemma_fx_mul_pos2(a: int, k: int)
    requires
        0 <= a,
        0 <= k,
    ensures
        0 <= fx_mul(a, k),
{
    assert(a * k >= 0) by (nonlinear_arith)
        requires
            0 <= a && 0 <= k,
    {}
    lemma_div_pos_is_pos(a * k, SCALE as int);
}

/// The latitude coordinate from the height of the unit normal, in
/// `[0, 1]`: an arcsine approximation, exact at the poles and the
/// equator.
pub fn asin_v(y: i64) -> (v: i64)
    requires
        abs_i(y as int) <= NMAX as int,
    ensures
        v == asin_v_spec(y as int),
        0 <= v <= ONE,
        y == 0 ==> v == HALF,
        y >= ONE ==> v == ONE,
        y <= -ONE ==> v == 0,
{
    let ay: i64 = if y < 0 {
        -y
    } else {
        y
    };
    let ay: i64 = if ay > ONE {
        ONE
    } else {
        ay
    };
    let s: i64 = crate::fixed::sqrt_fx(ONE - ay);
    proof {
        lemma_sqrt_unit_bound(ONE as int - ay);
        lemma_fx_mul_pos2(ay as int, 1047);
        lemma_fx_mul_bound(ay as int, 1047, 65536, 1047);
        lemma_fx_mul_pos2(ay as int, 1856 - fx_mul(ay as int, 1047));
        lemma_fx_mul_bound(ay as int, 1856 - fx_mul(ay as int, 1047), 65536, 1856);
        lemma_fx_mul_pos2(ay as int, 4477 - fx_mul(ay as int, 1856 - fx_mul(ay as int, 1047)));
        lemma_fx_mul_bound(
            ay as int,
            4477 - fx_mul(ay as int, 1856 - fx_mul(ay as int, 1047)),
            65536,
            4477,
        );
    }
    let poly: i64 = HALF - mul_fx(ay, 4477 - mul_fx(ay, 1856 - mul_fx(ay, 1047)));
    proof {
        lemma_fx_mul_pos2(s as int, poly as int);
        lemma_fx_mul_bound(s as int, poly as int, 65536, 32768);
    }
    let half_arc: i64 = mul_fx(s, poly);
    if y >= 0 {
        ONE - half_arc
    } else {
        half_arc
    }
}

/// The square root of at most one is at most one.
proof fn lemma_sqrt_unit_bound(a: int)
    requires
        0 <= a <= ONE as int,
    ensures
        0 <= isqrt_spec((a * SCALE) as nat) <= ONE as int,
        a == ONE as int ==> isqrt_spec((a * SCALE) as nat) == ONE as int,
        a == 0 ==> isqrt_spec((a * SCALE) as nat) == 0,
{
    let n = (a * SCALE) as nat;
    lemma_isqrt_exists(n);
    let r = isqrt_spec(n);
    assert((r * r) <= n && n < (r + 1) * (r + 1)) by {
        let w = choose|w: nat| #[trigger] (w * w) <= n && n < (w + 1) * (w + 1);
        lemma_isqrt_unique(n, w);
    }
    assert(r <= ONE as int) by (nonlinear_arith)
        requires
            (r * r) <= n,
            n <= 0x1_0000_0000,
    {}
    assert(65536nat * 65536nat == 0x1_0000_0000nat) by (nonlinear_arith) {}
    assert(65537nat * 65537nat == 0x1_0002_0001nat) by (nonlinear_arith) {}
    assert(1nat * 1nat == 1nat) by (nonlinear_arith) {}
    if a == ONE as int {
        lemma_isqrt_unique(n, 65536);
    }
    if a == 0 {
        lemma_isqrt_unique(n, 0);
    }
}

} // verus!
