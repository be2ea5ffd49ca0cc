//! Axis-aligned bounding boxes and the slab intersection test.
//!
//! The paired test `intersects_2` carries the same contract as two calls
//! of `intersects`, so the two can never disagree on any ray or pair of
//! boxes.

use vstd::prelude::*;
use crate::fixed::{
    SCALE, HALF, abs_i, div_tz, fx_mul, mul_fx, lemma_fx_mul_bound, lemma_div_tz_bounds,
    lemma_div_tz_abs, lemma_abs_mul_le,
};
use crate::vec3::{Vec3, vec_ok, coord_ok, CMAX};
use crate::ray::{Ray, ray_wf, inv_of, DMAX, lemma_inv_bound};
use vstd::arithmetic::div_mod::lemma_div_pos_is_pos;

verus! {

/// Slack added to the exit time before rejecting, so that a grazing ray
/// rounded outward by a reciprocal truncation still registers.
pub const WIGGLE: i64 = 7;

#[derive(Clone, Copy, PartialEq, Eq, Structural, Debug)]
pub struct AABB {
    pub low: Vec3,
    pub high: Vec3,
}

/// Box corners may sit on the coordinate bound itself; the empty box's
/// sentinels do.
pub open spec fn box_coord_ok(c: int) -> bool {
    -(CMAX as int) <= c <= CMAX as int
}

pub open spec fn box_vec_ok(v: Vec3) -> bool {
    box_coord_ok(v.x as int) && box_coord_ok(v.y as int) && box_coord_ok(v.z as int)
}

pub open spec fn aabb_wf(b: AABB) -> bool {
    box_vec_ok(b.low) && box_vec_ok(b.high)
}

pub open spec fn min_i(a: int, b: int) -> int {
    if a < b {
        a
    } else {
        b
    }
}

pub open spec fn max_i(a: int, b: int) -> int {
    if a > b {
        a
    } else {
        b
    }
}

/// Entry and exit times of a ray against one slab. A zero direction
/// component makes the ray parallel: the slab constrains nothing if the
/// origin lies between the planes, and excludes everything otherwise.
pub open spec fn axis_lo(lo: int, hi: int, o: int, d: int) -> int {
    if d == 0 {
        if o < lo || o > hi {
            i64::MAX as int
        } else {
            i64::MIN as int
        }
    } else {
        if d < 0 {
            fx_mul(hi - o, inv_of(d))
        } else {
            fx_mul(lo - o, inv_of(d))
        }
    }
}

pub open spec fn axis_hi(lo: int, hi: int, o: int, d: int) -> int {
    if d == 0 {
        if o < lo || o > hi {
            i64::MIN as int
        } else {
            i64::MAX as int
        }
    } else {
        if d < 0 {
            fx_mul(lo - o, inv_of(d))
        } else {
            fx_mul(hi - o, inv_of(d))
        }
    }
}

/// Entry time of the reduced slab interval.
pub open spec fn slab_tmin(b: AABB, r: Ray) -> int {
    max_i(
        axis_lo(b.low.x as int, b.high.x as int, r.origin.x as int, r.direction.x as int),
        max_i(
            axis_lo(b.low.y as int, b.high.y as int, r.origin.y as int, r.direction.y as int),
            axis_lo(b.low.z as int, b.high.z as int, r.origin.z as int, r.direction.z as int),
        ),
    )
}

/// Exit time of the reduced slab interval.
pub open spec fn slab_tmax(b: AABB, r: Ray) -> int {
    min_i(
        axis_hi(b.low.x as int, b.high.x as int, r.origin.x as int, r.direction.x as int),
        min_i(
            axis_hi(b.low.y as int, b.high.y as int, r.origin.y as int, r.direction.y as int),
            axis_hi(b.low.z as int, b.high.z as int, r.origin.z as int, r.direction.z as int),
        ),
    )
}

/// Whether the slab test reports a hit on the interval `(t0, t1)`.
pub open spec fn slab_hit(b: AABB, r: Ray, t0: int, t1: int) -> bool {
    &&& slab_tmin(b, r) <= slab_tmax(b, r) + WIGGLE
    &&& slab_tmin(b, r) < t1
    &&& slab_tmax(b, r) > t0
}

/// One slab of the test, exactly as the specification functions state it.
fn axis_interval(lo: i64, hi: i64, o: i64, d: i64, inv: i64) -> (r: (i64, i64))
    requires
        box_coord_ok(lo as int),
        box_coord_ok(hi as int),
        coord_ok(o as int),
        abs_i(d as int) <= DMAX as int,
        inv == inv_of(d as int),
    ensures
        r.0 == axis_lo(lo as int, hi as int, o as int, d as int),
        r.1 == axis_hi(lo as int, hi as int, o as int, d as int),
{
    if d == 0 {
        if o < lo || o > hi {
            (i64::MAX, i64::MIN)
        } else {
            (i64::MIN, i64::MAX)
        }
    } else {
        proof {
            lemma_inv_bound(d as int);
            lemma_fx_mul_bound(lo - o, inv as int, 0x20_0000_0000, 0x1_0000_0000);
            lemma_fx_mul_bound(hi - o, inv as int, 0x20_0000_0000, 0x1_0000_0000);
        }
        let near: i64 = if d < 0 {
            hi
        } else {
            lo
        };
        let far: i64 = if d < 0 {
            lo
        } else {
            hi
        };
        (mul_fx(near - o, inv), mul_fx(far - o, inv))
    }
}

impl AABB {
    /// The slab test: the entry time of the ray into the box, where the
    /// reduced interval meets `(t0, t1)`.
    pub fn intersects(&self, r: Ray, t0: i64, t1: i64) -> (res: Option<i64>)
        requires
            aabb_wf(*self),
            ray_wf(r),
        ensures
            res is Some <==> slab_hit(*self, r, t0 as int, t1 as int),
            res matches Some(t) ==> t == slab_tmin(*self, r),
    {
        let (tx0, tx1) = axis_interval(
            self.low.x,
            self.high.x,
            r.origin.x,
            r.direction.x,
            r.inv_direction.x,
        );
        let (ty0, ty1) = axis_interval(
            self.low.y,
            self.high.y,
            r.origin.y,
            r.direction.y,
            r.inv_direction.y,
        );
        let (tz0, tz1) = axis_interval(
            self.low.z,
            self.high.z,
            r.origin.z,
            r.direction.z,
            r.inv_direction.z,
        );
        let tmin: i64 = if tx0 > ty0 && tx0 > tz0 {
            tx0
        } else if ty0 > tz0 {
            ty0
        } else {
            tz0
        };
        let tmax: i64 = if tx1 < ty1 && tx1 < tz1 {
            tx1
        } else if ty1 < tz1 {
            ty1
        } else {
            tz1
        };
        if (tmin as i128) <= (tmax as i128) + (WIGGLE as i128) && tmin < t1 && tmax > t0 {
            Some(tmin)
        } else {
            None
        }
    }

    /// Both siblings against one ray. The contract is that of two calls
    /// of `intersects`, so the paired test always agrees with the single
    /// one, whatever the ray and whatever the boxes.
    pub fn intersects_2(&self, second: &AABB, r: Ray, t0: i64, t1: i64) -> (res: (
        Option<i64>,
        Option<i64>,
    ))
        requires
            aabb_wf(*self),
            aabb_wf(*second),
            ray_wf(r),
        ensures
            res.0 is Some <==> slab_hit(*self, r, t0 as int, t1 as int),
            res.0 matches Some(t) ==> t == slab_tmin(*self, r),
            res.1 is Some <==> slab_hit(*second, r, t0 as int, t1 as int),
            res.1 matches Some(t) ==> t == slab_tmin(*second, r),
    {
        (self.intersects(r, t0, t1), second.intersects(r, t0, t1))
    }

    /// The box that contains nothing: merging it with any box gives that
    /// box back, and no ray meets it.
    pub fn empty() -> (res: AABB)
        ensures
            res == empty_aabb(),
    {
        AABB {
            low: Vec3 { x: CMAX, y: CMAX, z: CMAX },
            high: Vec3 { x: -CMAX, y: -CMAX, z: -CMAX },
        }
    }

    pub fn is_empty(self) -> (res: bool)
        ensures
            res == aabb_is_empty(self),
    {
        self.low.x > self.high.x || self.low.y > self.high.y || self.low.z > self.high.z
    }

    /// Componentwise minimum of the lows, maximum of the highs.
    pub fn merge(self, other: AABB) -> (res: AABB)
        ensures
            res == merge_spec(self, other),
    {
        AABB {
            low: Vec3 {
                x: if self.low.x < other.low.x {
                    self.low.x
                } else {
                    other.low.x
                },
                y: if self.low.y < other.low.y {
                    self.low.y
                } else {
                    other.low.y
                },
                z: if self.low.z < other.low.z {
                    self.low.z
                } else {
                    other.low.z
                },
            },
            high: Vec3 {
                x: if self.high.x > other.high.x {
                    self.high.x
                } else {
                    other.high.x
                },
                y: if self.high.y > other.high.y {
                    self.high.y
                } else {
                    other.high.y
                },
                z: if self.high.z > other.high.z {
                    self.high.z
                } else {
                    other.high.z
                },
            },
        }
    }

    /// The centre of the box, used as the primitive's centroid during
    /// hierarchy construction.
    pub fn centroid(self) -> (res: Vec3)
        requires
            aabb_wf(self),
        ensures
            res.x == fx_mul(self.low.x + self.high.x, HALF as int),
            res.y == fx_mul(self.low.y + self.high.y, HALF as int),
            res.z == fx_mul(self.low.z + self.high.z, HALF as int),
            box_vec_ok(res),
    {
        proof {
            lemma_fx_mul_bound(self.low.x + self.high.x, HALF as int, 0x20_0000_0000, HALF as int);
            lemma_fx_mul_bound(self.low.y + self.high.y, HALF as int, 0x20_0000_0000, HALF as int);
            lemma_fx_mul_bound(self.low.z + self.high.z, HALF as int, 0x20_0000_0000, HALF as int);
        }
        Vec3 {
            x: mul_fx(self.low.x + self.high.x, HALF),
            y: mul_fx(self.low.y + self.high.y, HALF),
            z: mul_fx(self.low.z + self.high.z, HALF),
        }
    }
}

pub open spec fn empty_aabb() -> AABB {
    AABB {
        low: Vec3 { x: CMAX, y: CMAX, z: CMAX },
        high: Vec3 { x: (-CMAX) as i64, y: (-CMAX) as i64, z: (-CMAX) as i64 },
    }
}

pub open spec fn aabb_is_empty(b: AABB) -> bool {
    b.low.x > b.high.x || b.low.y > b.high.y || b.low.z > b.high.z
}

pub open spec fn merge_spec(a: AABB, b: AABB) -> AABB {
    AABB {
        low: Vec3 {
            x: if a.low.x < b.low.x {
                a.low.x
            } else {
                b.low.x
            },
            y: if a.low.y < b.low.y {
                a.low.y
            } else {
                b.low.y
            },
            z: if a.low.z < b.low.z {
                a.low.z
            } else {
                b.low.z
            },
        },
        high: Vec3 {
            x: if a.high.x > b.high.x {
                a.high.x
            } else {
                b.high.x
            },
            y: if a.high.y > b.high.y {
                a.high.y
            } else {
                b.high.y
            },
            z: if a.high.z > b.high.z {
                a.high.z
            } else {
                b.high.z
            },
        },
    }
}

/// Merging the empty box with any well-formed box gives that box.
pub proof fn lemma_empty_merge_identity(b: AABB)
    requires
        aabb_wf(b),
    ensures
        merge_spec(empty_aabb(), b) == b,
        merge_spec(b, empty_aabb()) == b,
{
}

/// One parallel-miss or separated slab of the empty box, in any axis,
/// pushes the entry time past the exit time by far more than the slack.
proof fn lemma_empty_axis_gap(o: int, d: int)
    requires
        coord_ok(o),
        abs_i(d) <= DMAX as int,
    ensures
        axis_lo(CMAX as int, -(CMAX as int), o, d) > axis_hi(CMAX as int, -(CMAX as int), o, d)
            + WIGGLE,
{
    let lo = CMAX as int;
    let hi = -(CMAX as int);
    if d == 0 {
        assert(o < lo);
    } else {
        let i = inv_of(d);
        lemma_inv_bound(d);
        assert((crate::fixed::ONE as int) * (SCALE as int) == 0x1_0000_0000);
        assert(d > 0 ==> i >= 1);
        assert(d < 0 ==> i <= -1);
        let p_near = if d < 0 { (hi - o) * i } else { (lo - o) * i };
        let p_far = if d < 0 { (lo - o) * i } else { (hi - o) * i };
        assert(p_near - p_far >= 2 * (CMAX as int)) by (nonlinear_arith)
            requires
                p_near == if d < 0 { (hi - o) * i } else { (lo - o) * i },
                p_far == if d < 0 { (lo - o) * i } else { (hi - o) * i },
                lo == CMAX as int,
                hi == -(CMAX as int),
                d != 0,
                1 <= abs_i(i),
                (d < 0) ==> (i < 0),
                (d > 0) ==> (i > 0),
        {}
        lemma_div_tz_bounds(p_near, SCALE as int);
        lemma_div_tz_bounds(p_far, SCALE as int);
        assert(div_tz(p_near, SCALE as int) > div_tz(p_far, SCALE as int) + WIGGLE)
            by (nonlinear_arith)
            requires
                p_near - p_far >= 2 * (CMAX as int),
                p_near >= 0 ==> (SCALE as int) * div_tz(p_near, SCALE as int) <= p_near < (
                SCALE as int) * (div_tz(p_near, SCALE as int) + 1),
                p_near < 0 ==> (SCALE as int) * div_tz(p_near, SCALE as int) >= p_near > (
                SCALE as int) * (div_tz(p_near, SCALE as int) - 1),
                p_far >= 0 ==> (SCALE as int) * div_tz(p_far, SCALE as int) <= p_far < (
                SCALE as int) * (div_tz(p_far, SCALE as int) + 1),
                p_far < 0 ==> (SCALE as int) * div_tz(p_far, SCALE as int) >= p_far > (
                SCALE as int) * (div_tz(p_far, SCALE as int) - 1),
                SCALE == 65536,
                WIGGLE == 7,
                CMAX == 0x10_0000_0000,
        {}
    }
}

/// No ray meets the empty box, whatever the interval.
pub proof fn lemma_empty_no_hit(r: Ray, t0: int, t1: int)
    requires
        ray_wf(r),
    ensures
        !slab_hit(empty_aabb(), r, t0, t1),
{
    lemma_empty_axis_gap(r.origin.x as int, r.direction.x as int);
    lemma_empty_axis_gap(r.origin.y as int, r.direction.y as int);
    lemma_empty_axis_gap(r.origin.z as int, r.direction.z as int);
}

} // verus!
