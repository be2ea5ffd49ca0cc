//! Rays with precomputed reciprocal directions and sign tables, so that
//! every slab test afterwards costs only multiplications.

use vstd::prelude::*;
use vstd::arithmetic::div_mod::*;
use crate::fixed::{
    SCALE, ONE, abs_i, div_tz, fx_mul, fx_div, div_fx, lemma_div_tz_abs, lemma_fx_mul_bound,
};
use crate::vec3::{Vec3, vec_ok, coord_ok};

verus! {

/// Largest direction-component magnitude a ray admits; keeping the
/// direction inside this bound keeps every reciprocal at least one unit,
/// so a slab test can never mistake an interval for the whole line.
pub const DMAX: i64 = 0x1_0000_0000;

/// Componentwise signs of a direction: true where the component is
/// negative.
#[derive(Clone, Copy, PartialEq, Eq, Structural, Debug)]
pub struct SignVec {
    pub x: bool,
    pub y: bool,
    pub z: bool,
}

/// The stored reciprocal of a direction component. A zero component has
/// no reciprocal; the sentinel is never read by the slab test, which
/// branches on the component itself.
pub open spec fn inv_of(d: int) -> int {
    if d != 0 {
        fx_div(ONE as int, d)
    } else {
        i64::MAX as int
    }
}

#[derive(Clone, Copy, PartialEq, Eq, Structural, Debug)]
pub struct Ray {
    pub origin: Vec3,
    pub direction: Vec3,
    pub wl: i64,
    pub inv_direction: Vec3,
    pub sign: SignVec,
    pub ti: i64,
}

pub open spec fn dir_ok(d: Vec3) -> bool {
    abs_i(d.x as int) <= DMAX as int && abs_i(d.y as int) <= DMAX as int && abs_i(d.z as int)
        <= DMAX as int
}

/// A well-formed ray: coordinates in range, the direction bounded, and
/// the cached reciprocals and signs agreeing with the direction.
pub open spec fn ray_wf(r: Ray) -> bool {
    &&& vec_ok(r.origin)
    &&& vec_ok(r.direction)
    &&& dir_ok(r.direction)
    &&& r.inv_direction.x == inv_of(r.direction.x as int)
    &&& r.inv_direction.y == inv_of(r.direction.y as int)
    &&& r.inv_direction.z == inv_of(r.direction.z as int)
    &&& r.sign.x == (r.direction.x < 0)
    &&& r.sign.y == (r.direction.y < 0)
    &&& r.sign.z == (r.direction.z < 0)
}

/// The reciprocal of a bounded nonzero component stays within the scale
/// of one over one unit.
pub proof fn lemma_inv_bound(d: int)
    requires
        d != 0,
        abs_i(d) <= DMAX as int,
    ensures
        1 <= abs_i(inv_of(d)) <= 0x1_0000_0000,
{
    lemma_div_tz_abs((ONE as int) * (SCALE as int), d);
    lemma_div_nonincreasing(0x1_0000_0000, abs_i(d));
    lemma_div_pos_is_pos(0x1_0000_0000, abs_i(d));
    assert(abs_i(inv_of(d)) == 0x1_0000_0000int / abs_i(d));
    if abs_i(inv_of(d)) < 1 {
        lemma_small_div_converse_aux(0x1_0000_0000, abs_i(d));
    }
}

proof fn lemma_small_div_converse_aux(x: int, d: int)
    requires
        0 < d,
        0 <= x,
        x / d == 0,
    ensures
        x < d,
{
    lemma_fundamental_div_mod(x, d);
    lemma_mod_bound(x, d);
}

fn inv_component(d: i64) -> (r: i64)
    requires
        abs_i(d as int) <= DMAX as int,
    ensures
        r == inv_of(d as int),
{
    if d != 0 {
        proof {
            lemma_div_tz_abs((ONE as int) * (SCALE as int), d as int);
            lemma_div_nonincreasing(0x1_0000_0000, abs_i(d as int));
            lemma_div_pos_is_pos(0x1_0000_0000, abs_i(d as int));
        }
        div_fx(ONE, d)
    } else {
        i64::MAX
    }
}

impl Ray {
    pub fn new(origin: Vec3, direction: Vec3, wl: i64, ti: i64) -> (r: Ray)
        requires
            vec_ok(origin),
            vec_ok(direction),
            dir_ok(direction),
        ensures
            r.origin == origin,
            r.direction == direction,
            r.wl == wl,
            r.ti == ti,
            ray_wf(r),
    {
        let inv_direction = Vec3 {
            x: inv_component(direction.x),
            y: inv_component(direction.y),
            z: inv_component(direction.z),
        };
        let sign = SignVec { x: direction.x < 0, y: direction.y < 0, z: direction.z < 0 };
        Ray { origin, direction, wl, inv_direction, sign, ti }
    }

    /// The point reached after travelling `t` along the direction.
    pub fn point_at_parameter(self, t: i64) -> (p: Vec3)
        requires
            ray_wf(self),
            abs_i(t as int) <= crate::vec3::CMAX as int,
        ensures
            p.x == self.origin.x + fx_mul(self.direction.x as int, t as int),
            p.y == self.origin.y + fx_mul(self.direction.y as int, t as int),
            p.z == self.origin.z + fx_mul(self.direction.z as int, t as int),
    {
        proof {
            lemma_fx_mul_bound(
                self.direction.x as int,
                t as int,
                DMAX as int,
                crate::vec3::CMAX as int,
            );
            lemma_fx_mul_bound(
                self.direction.y as int,
                t as int,
                DMAX as int,
                crate::vec3::CMAX as int,
            );
            lemma_fx_mul_bound(
                self.direction.z as int,
                t as int,
                DMAX as int,
                crate::vec3::CMAX as int,
            );
        }
        let d = self.direction;
        let o = self.origin;
        Vec3 {
            x: o.x + crate::fixed::mul_fx(d.x, t),
            y: o.y + crate::fixed::mul_fx(d.y, t),
            z: o.z + crate::fixed::mul_fx(d.z, t),
        }
    }
}

} // verus!
