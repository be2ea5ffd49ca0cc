//! Three-component fixed-point vectors, used for points, directions and
//! normals alike.

use vstd::prelude::*;
use vstd::arithmetic::div_mod::*;
use crate::fixed::{
    SCALE, abs_i, div_tz, fx_mul, mul_fx, div_trunc_i128, sqrt_fx, isqrt_spec, lemma_abs_mul_le,
    lemma_div_tz_le, lemma_div_tz_abs,
};

verus! {

/// Largest coordinate magnitude the geometry admits. Keeping every
/// coordinate strictly inside this bound leaves room for the wide
/// intermediates of dot products, discriminants and slab tests.
pub const CMAX: i64 = 0x10_0000_0000;

pub open spec fn coord_ok(c: int) -> bool {
    -(CMAX as int) < c < CMAX as int
}

#[derive(Clone, Copy, PartialEq, Eq, Structural, Debug)]
pub struct Vec3 {
    pub x: i64,
    pub y: i64,
    pub z: i64,
}

pub open spec fn vec_ok(v: Vec3) -> bool {
    coord_ok(v.x as int) && coord_ok(v.y as int) && coord_ok(v.z as int)
}

/// A wider band for difference vectors, which may span the whole
/// coordinate range twice.
pub open spec fn dvec_ok(v: Vec3) -> bool {
    abs_i(v.x as int) <= 2 * (CMAX as int) && abs_i(v.y as int) <= 2 * (CMAX as int) && abs_i(
        v.z as int,
    ) <= 2 * (CMAX as int)
}

/// The exact value of a fixed-point dot product: the wide sum of the
/// component products, truncated once.
pub open spec fn dot_spec(a: Vec3, b: Vec3) -> int {
    div_tz(a.x * b.x + a.y * b.y + a.z * b.z, SCALE as int)
}

pub open spec fn cross_spec(a: Vec3, b: Vec3) -> (int, int, int) {
    (
        div_tz(a.y * b.z - a.z * b.y, SCALE as int),
        div_tz(a.z * b.x - a.x * b.z, SCALE as int),
        div_tz(a.x * b.y - a.y * b.x, SCALE as int),
    )
}

impl Vec3 {
    pub fn new(x: i64, y: i64, z: i64) -> (r: Vec3)
        ensures
            r.x == x && r.y == y && r.z == z,
    {
        Vec3 { x, y, z }
    }

    pub fn zero() -> (r: Vec3)
        ensures
            r.x == 0 && r.y == 0 && r.z == 0,
    {
        Vec3 { x: 0, y: 0, z: 0 }
    }

    pub fn add(self, o: Vec3) -> (r: Vec3)
        requires
            i64::MIN <= self.x + o.x <= i64::MAX,
            i64::MIN <= self.y + o.y <= i64::MAX,
            i64::MIN <= self.z + o.z <= i64::MAX,
        ensures
            r.x == self.x + o.x && r.y == self.y + o.y && r.z == self.z + o.z,
    {
        Vec3 { x: self.x + o.x, y: self.y + o.y, z: self.z + o.z }
    }

    pub fn sub(self, o: Vec3) -> (r: Vec3)
        requires
            i64::MIN <= self.x - o.x <= i64::MAX,
            i64::MIN <= self.y - o.y <= i64::MAX,
            i64::MIN <= self.z - o.z <= i64::MAX,
        ensures
            r.x == self.x - o.x && r.y == self.y - o.y && r.z == self.z - o.z,
    {
        Vec3 { x: self.x - o.x, y: self.y - o.y, z: self.z - o.z }
    }

    pub fn neg(self) -> (r: Vec3)
        requires
            self.x != i64::MIN && self.y != i64::MIN && self.z != i64::MIN,
        ensures
            r.x == -self.x && r.y == -self.y && r.z == -self.z,
    {
        Vec3 { x: -self.x, y: -self.y, z: -self.z }
    }

    /// Componentwise scaling by a fixed-point factor.
    pub fn scale(self, k: i64) -> (r: Vec3)
        requires
            i64::MIN <= fx_mul(self.x as int, k as int) <= i64::MAX,
            i64::MIN <= fx_mul(self.y as int, k as int) <= i64::MAX,
            i64::MIN <= fx_mul(self.z as int, k as int) <= i64::MAX,
        ensures
            r.x == fx_mul(self.x as int, k as int),
            r.y == fx_mul(self.y as int, k as int),
            r.z == fx_mul(self.z as int, k as int),
    {
        Vec3 { x: mul_fx(self.x, k), y: mul_fx(self.y, k), z: mul_fx(self.z, k) }
    }

    pub fn dot(self, o: Vec3) -> (r: i64)
        requires
            dvec_ok(self),
            dvec_ok(o),
        ensures
            r == dot_spec(self, o),
            abs_i(r as int) <= 0x1000_0000_0000_0000,
    {
        proof {
            lemma_abs_mul_le(self.x as int, o.x as int, 0x20_0000_0000, 0x20_0000_0000);
            lemma_abs_mul_le(self.y as int, o.y as int, 0x20_0000_0000, 0x20_0000_0000);
            lemma_abs_mul_le(self.z as int, o.z as int, 0x20_0000_0000, 0x20_0000_0000);
            lemma_div_tz_le(
                self.x * o.x + self.y * o.y + self.z * o.z,
                SCALE as int,
            );
        }
        let wide: i128 = (self.x as i128) * (o.x as i128) + (self.y as i128) * (o.y as i128)
            + (self.z as i128) * (o.z as i128);
        let q: i128 = div_trunc_i128(wide, SCALE as i128);
        proof {
            lemma_div_tz_abs(wide as int, SCALE as int);
            lemma_div_is_ordered(
                abs_i(wide as int),
                0xC00_0000_0000_0000_0000,
                SCALE as int,
            );
        }
        q as i64
    }

    /// The squared length, never negative.
    pub fn square_length(self) -> (r: i64)
        requires
            dvec_ok(self),
        ensures
            r == dot_spec(self, self),
            r >= 0,
            abs_i(r as int) <= 0x1000_0000_0000_0000,
    {
        proof {
            lemma_square_nonneg(self.x as int);
            lemma_square_nonneg(self.y as int);
            lemma_square_nonneg(self.z as int);
        }
        self.dot(self)
    }

    pub fn cross(self, o: Vec3) -> (r: Vec3)
        requires
            dvec_ok(self),
            dvec_ok(o),
        ensures
            (r.x as int, r.y as int, r.z as int) == cross_spec(self, o),
    {
        proof {
            lemma_abs_mul_le(self.y as int, o.z as int, 0x20_0000_0000, 0x20_0000_0000);
            lemma_abs_mul_le(self.z as int, o.y as int, 0x20_0000_0000, 0x20_0000_0000);
            lemma_abs_mul_le(self.z as int, o.x as int, 0x20_0000_0000, 0x20_0000_0000);
            lemma_abs_mul_le(self.x as int, o.z as int, 0x20_0000_0000, 0x20_0000_0000);
            lemma_abs_mul_le(self.x as int, o.y as int, 0x20_0000_0000, 0x20_0000_0000);
            lemma_abs_mul_le(self.y as int, o.x as int, 0x20_0000_0000, 0x20_0000_0000);
            lemma_div_tz_le(self.y * o.z - self.z * o.y, SCALE as int);
            lemma_div_tz_le(self.z * o.x - self.x * o.z, SCALE as int);
            lemma_div_tz_le(self.x * o.y - self.y * o.x, SCALE as int);
        }
        let cx: i128 = (self.y as i128) * (o.z as i128) - (self.z as i128) * (o.y as i128);
        let cy: i128 = (self.z as i128) * (o.x as i128) - (self.x as i128) * (o.z as i128);
        let cz: i128 = (self.x as i128) * (o.y as i128) - (self.y as i128) * (o.x as i128);
        Vec3 {
            x: div_trunc_i128(cx, SCALE as i128) as i64,
            y: div_trunc_i128(cy, SCALE as i128) as i64,
            z: div_trunc_i128(cz, SCALE as i128) as i64,
        }
    }

    /// The length: the floor square root of the squared length, in
    /// fixed-point scale.
    pub fn length(self) -> (r: i64)
        requires
            dvec_ok(self),
        ensures
            r == isqrt_spec((dot_spec(self, self) * SCALE) as nat),
            r >= 0,
    {
        let sq: i64 = self.square_length();
        sqrt_fx(sq)
    }
}

/// A square is never negative.
pub proof fn lemma_square_nonneg(a: int)
    ensures
        a * a >= 0,
{
    assert(a * a >= 0) by (nonlinear_arith) {}
}

} // verus!
