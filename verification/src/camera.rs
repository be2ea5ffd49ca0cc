//! A thin-lens camera with focus distance, aperture and a motion-blur
//! shutter interval.

use vstd::prelude::*;
use vstd::arithmetic::div_mod::{lemma_div_pos_is_pos, lemma_div_nonincreasing};
use crate::fixed::{
    SCALE, ONE, HALF, abs_i, div_tz, fx_mul, fx_div, mul_fx, div_fx, isqrt_spec,
    lemma_fx_mul_bound, lemma_div_tz_abs,
};
use crate::vec3::{Vec3, vec_ok, dvec_ok, dot_spec, cross_spec, CMAX};
use crate::ray::{Ray, ray_wf, dir_ok, DMAX};
use crate::random::TracerRng;

verus! {

/// Bound on the camera's precomputed frame vectors, loose enough for
/// any focus distance the scene range admits.
pub const CAM_MAX: i64 = 0x100_0000_0000;

pub struct Camera {
    pub origin: Vec3,
    pub lower_left_corner: Vec3,
    pub horizontal: Vec3,
    pub vertical: Vec3,
    pub u: Vec3,
    pub v: Vec3,
    pub lens_radius: i64,
    pub time0: i64,
    pub time1: i64,
}

pub open spec fn cam_vec_ok(v: Vec3) -> bool {
    abs_i(v.x as int) <= CAM_MAX as int && abs_i(v.y as int) <= CAM_MAX as int && abs_i(v.z as int)
        <= CAM_MAX as int
}

/// The view direction before normalisation.
pub open spec fn cam_dirw(look_from: Vec3, look_at: Vec3) -> Vec3 {
    Vec3 {
        x: (look_from.x - look_at.x) as i64,
        y: (look_from.y - look_at.y) as i64,
        z: (look_from.z - look_at.z) as i64,
    }
}

pub open spec fn vec_of_cross(c: (int, int, int)) -> Vec3 {
    Vec3 { x: c.0 as i64, y: c.1 as i64, z: c.2 as i64 }
}

/// The orthonormal-ish camera basis: `w` away from the scene, `u` to
/// the side, `v` up.
pub open spec fn cam_w(look_from: Vec3, look_at: Vec3) -> Vec3 {
    crate::primitive::unit_vec_spec(cam_dirw(look_from, look_at))
}

pub open spec fn cam_uc(up: Vec3, w: Vec3) -> Vec3 {
    vec_of_cross(cross_spec(up, w))
}

pub open spec fn cam_u(up: Vec3, w: Vec3) -> Vec3 {
    crate::primitive::unit_vec_spec(cam_uc(up, w))
}

pub open spec fn cam_vv(w: Vec3, u: Vec3) -> Vec3 {
    vec_of_cross(cross_spec(w, u))
}

/// A vector scaled componentwise in fixed point.
pub open spec fn vscale(v: Vec3, k: int) -> Vec3 {
    Vec3 {
        x: fx_mul(v.x as int, k) as i64,
        y: fx_mul(v.y as int, k) as i64,
        z: fx_mul(v.z as int, k) as i64,
    }
}

/// The focal-plane corner: the basis vectors scaled by the half extents
/// at the focus distance, pointed backward from the origin.
pub open spec fn cam_llc(uhw: Vec3, vhh: Vec3, wfd: Vec3) -> Vec3 {
    Vec3 {
        x: (-(uhw.x as int) - vhh.x - wfd.x) as i64,
        y: (-(uhw.y as int) - vhh.y - wfd.y) as i64,
        z: (-(uhw.z as int) - vhh.z - wfd.z) as i64,
    }
}

pub open spec fn vdouble(v: Vec3) -> Vec3 {
    Vec3 { x: (2 * v.x) as i64, y: (2 * v.y) as i64, z: (2 * v.z) as i64 }
}

pub open spec fn clamp_to(c: int, lim: int) -> int {
    if c > lim {
        lim
    } else if c < -lim {
        -lim
    } else {
        c
    }
}

/// A direction clipped into the admissible band.
pub open spec fn clamp_dir_spec(v: Vec3) -> Vec3 {
    Vec3 {
        x: clamp_to(v.x as int, DMAX as int) as i64,
        y: clamp_to(v.y as int, DMAX as int) as i64,
        z: clamp_to(v.z as int, DMAX as int) as i64,
    }
}

/// A point clipped into the coordinate range.
pub open spec fn clamp_origin_spec(v: Vec3) -> Vec3 {
    Vec3 {
        x: clamp_to(v.x as int, CMAX as int - 1) as i64,
        y: clamp_to(v.y as int, CMAX as int - 1) as i64,
        z: clamp_to(v.z as int, CMAX as int - 1) as i64,
    }
}

/// The lens offset of one disk sample.
pub open spec fn cam_offset(c: Camera, rd: Vec3) -> Vec3 {
    let rdx = fx_mul(rd.x as int, c.lens_radius as int);
    let rdy = fx_mul(rd.y as int, c.lens_radius as int);
    Vec3 {
        x: (fx_mul(c.u.x as int, rdx) + fx_mul(c.v.x as int, rdy)) as i64,
        y: (fx_mul(c.u.y as int, rdx) + fx_mul(c.v.y as int, rdy)) as i64,
        z: (fx_mul(c.u.z as int, rdx) + fx_mul(c.v.z as int, rdy)) as i64,
    }
}

/// The unclipped ray direction through screen position `(s, t)` for one
/// lens offset.
pub open spec fn cam_raw_dir(c: Camera, s: int, t: int, offset: Vec3) -> Vec3 {
    Vec3 {
        x: (c.lower_left_corner.x + fx_mul(c.horizontal.x as int, s) + fx_mul(
            c.vertical.x as int,
            t,
        ) - offset.x) as i64,
        y: (c.lower_left_corner.y + fx_mul(c.horizontal.y as int, s) + fx_mul(
            c.vertical.y as int,
            t,
        ) - offset.y) as i64,
        z: (c.lower_left_corner.z + fx_mul(c.horizontal.z as int, s) + fx_mul(
            c.vertical.z as int,
            t,
        ) - offset.z) as i64,
    }
}

/// The offset ray origin for one lens offset.
pub open spec fn cam_ray_origin(c: Camera, offset: Vec3) -> Vec3 {
    Vec3 {
        x: (c.origin.x + offset.x) as i64,
        y: (c.origin.y + offset.y) as i64,
        z: (c.origin.z + offset.z) as i64,
    }
}

pub open spec fn camera_wf(c: Camera) -> bool {
    &&& vec_ok(c.origin)
    &&& cam_vec_ok(c.lower_left_corner)
    &&& cam_vec_ok(c.horizontal)
    &&& cam_vec_ok(c.vertical)
    &&& abs_i(c.u.x as int) <= 3 * ONE && abs_i(c.u.y as int) <= 3 * ONE && abs_i(c.u.z as int)
        <= 3 * ONE
    &&& abs_i(c.v.x as int) <= 0x12_0000 && abs_i(c.v.y as int) <= 0x12_0000 && abs_i(
        c.v.z as int,
    ) <= 0x12_0000
    &&& 0 <= c.lens_radius <= ONE
    &&& 0 <= c.time0 < c.time1 <= ONE
}

/// The unit direction of a vector, or nothing for a degenerate one.
fn unit_or_none(w: Vec3) -> (res: Option<Vec3>)
    requires
        dvec_ok(w),
    ensures
        res is Some <==> crate::primitive::unit_vec_ok(w),
        res matches Some(u) ==> u == crate::primitive::unit_vec_spec(w) && abs_i(u.x as int) <= 3
            * ONE && abs_i(u.y as int) <= 3 * ONE && abs_i(u.z as int) <= 3 * ONE,
{
    crate::triangle::unit_dir(w)
}

impl Camera {
    /// Assemble the camera frame. The vertical field of view arrives as
    /// the precomputed tangent of its half angle, in fixed point; the
    /// remaining derivation is carried out here exactly. A degenerate
    /// view direction or up vector gives nothing.
    #[verifier::spinoff_prover]
    pub fn new(
        look_from: Vec3,
        look_at: Vec3,
        up: Vec3,
        tan_half_vfov: i64,
        aspect: i64,
        aperture: i64,
        focus_dist: i64,
        t0: i64,
        t1: i64,
    ) -> (res: Option<Camera>)
        requires
            vec_ok(look_from),
            vec_ok(look_at),
            abs_i(up.x as int) <= ONE && abs_i(up.y as int) <= ONE && abs_i(up.z as int) <= ONE,
            0 < tan_half_vfov <= 0x100_0000,
            0 < aspect <= 0x100_0000,
            0 <= aperture <= 2 * ONE,
            0 < focus_dist <= 0x8_0000_0000,
            0 <= t0 < t1 <= ONE,
        ensures
            res matches Some(c) ==> {
                let w = cam_w(look_from, look_at);
                let u = cam_u(up, w);
                let v = cam_vv(w, u);
                let hwf = fx_mul(fx_mul(aspect as int, tan_half_vfov as int), focus_dist as int);
                let hhf = fx_mul(tan_half_vfov as int, focus_dist as int);
                let uhw = vscale(u, hwf);
                let vhh = vscale(v, hhf);
                let wfd = vscale(w, focus_dist as int);
                &&& camera_wf(c)
                &&& c.origin == look_from
                &&& c.time0 == t0
                &&& c.time1 == t1
                &&& c.lens_radius == fx_mul(aperture as int, HALF as int)
                &&& c.u == u
                &&& c.v == v
                &&& c.lower_left_corner == cam_llc(uhw, vhh, wfd)
                &&& c.horizontal == vdouble(uhw)
                &&& c.vertical == vdouble(vhh)
            },
            res is Some <==> {
                let w = cam_w(look_from, look_at);
                let u = cam_u(up, w);
                let v = cam_vv(w, u);
                let hwf = fx_mul(fx_mul(aspect as int, tan_half_vfov as int), focus_dist as int);
                let hhf = fx_mul(tan_half_vfov as int, focus_dist as int);
                let uhw = vscale(u, hwf);
                let vhh = vscale(v, hhf);
                let wfd = vscale(w, focus_dist as int);
                &&& crate::primitive::unit_vec_ok(cam_dirw(look_from, look_at))
                &&& crate::primitive::unit_vec_ok(cam_uc(up, w))
                &&& cam_vec_ok(cam_llc(uhw, vhh, wfd))
                &&& cam_vec_ok(vdouble(uhw))
                &&& cam_vec_ok(vdouble(vhh))
            },
    {
        let half_height: i64 = tan_half_vfov;
        proof {
            lemma_fx_mul_bound(aspect as int, half_height as int, 0x100_0000, 0x100_0000);
            lemma_fx_mul_bound(aperture as int, HALF as int, 131072, 32768);
        }
        let half_width: i64 = mul_fx(aspect, half_height);
        let lens_radius: i64 = mul_fx(aperture, HALF);
        let dirw = Vec3 {
            x: look_from.x - look_at.x,
            y: look_from.y - look_at.y,
            z: look_from.z - look_at.z,
        };
        proof {
            assert(dirw == cam_dirw(look_from, look_at));
        }
        let w = match unit_or_none(dirw) {
            None => {
                return None;
            },
            Some(w) => w,
        };
        proof {
            assert(w == cam_w(look_from, look_at));
        }
        let uc = up.cross(w);
        proof {
            crate::fixed::lemma_abs_mul_le(up.y as int, w.z as int, 65536, 196608);
            crate::fixed::lemma_abs_mul_le(up.z as int, w.y as int, 65536, 196608);
            crate::fixed::lemma_abs_mul_le(up.z as int, w.x as int, 65536, 196608);
            crate::fixed::lemma_abs_mul_le(up.x as int, w.z as int, 65536, 196608);
            crate::fixed::lemma_abs_mul_le(up.x as int, w.y as int, 65536, 196608);
            crate::fixed::lemma_abs_mul_le(up.y as int, w.x as int, 65536, 196608);
        }
        proof {
            assert(uc == cam_uc(up, w));
        }
        let u = match unit_or_none(uc) {
            None => {
                return None;
            },
            Some(u) => u,
        };
        proof {
            assert(u == cam_u(up, cam_w(look_from, look_at)));
        }
        let v = w.cross(u);
        proof {
            assert(v == cam_vv(w, u));
        }
        proof {
            crate::fixed::lemma_abs_mul_le(w.y as int, u.z as int, 196608, 196608);
            crate::fixed::lemma_abs_mul_le(w.z as int, u.y as int, 196608, 196608);
            crate::fixed::lemma_abs_mul_le(w.z as int, u.x as int, 196608, 196608);
            crate::fixed::lemma_abs_mul_le(w.x as int, u.z as int, 196608, 196608);
            crate::fixed::lemma_abs_mul_le(w.x as int, u.y as int, 196608, 196608);
            crate::fixed::lemma_abs_mul_le(w.y as int, u.x as int, 196608, 196608);
            lemma_div_tz_abs((w.y * u.z - w.z * u.y), SCALE as int);
            lemma_div_tz_abs((w.z * u.x - w.x * u.z), SCALE as int);
            lemma_div_tz_abs((w.x * u.y - w.y * u.x), SCALE as int);
            lemma_div_pos_is_pos(abs_i(w.y * u.z - w.z * u.y), SCALE as int);
            lemma_div_pos_is_pos(abs_i(w.z * u.x - w.x * u.z), SCALE as int);
            lemma_div_pos_is_pos(abs_i(w.x * u.y - w.y * u.x), SCALE as int);
            vstd::arithmetic::div_mod::lemma_div_is_ordered(
                abs_i(w.y * u.z - w.z * u.y),
                77309411328int,
                SCALE as int,
            );
            vstd::arithmetic::div_mod::lemma_div_is_ordered(
                abs_i(w.z * u.x - w.x * u.z),
                77309411328int,
                SCALE as int,
            );
            vstd::arithmetic::div_mod::lemma_div_is_ordered(
                abs_i(w.x * u.y - w.y * u.x),
                77309411328int,
                SCALE as int,
            );
        }
        proof {
            lemma_fx_mul_bound(half_width as int, focus_dist as int, 0x1_0000_0000, 0x8_0000_0000);
            lemma_fx_mul_bound(half_height as int, focus_dist as int, 0x100_0000, 0x8_0000_0000);
        }
        let hwf: i64 = mul_fx(half_width, focus_dist);
        let hhf: i64 = mul_fx(half_height, focus_dist);
        proof {
            lemma_fx_mul_bound(u.x as int, hwf as int, 196608, 0x8_0000_0000_0000);
            lemma_fx_mul_bound(u.y as int, hwf as int, 196608, 0x8_0000_0000_0000);
            lemma_fx_mul_bound(u.z as int, hwf as int, 196608, 0x8_0000_0000_0000);
            lemma_fx_mul_bound(v.x as int, hhf as int, 0x12_0000, 0x800_0000_0000);
            lemma_fx_mul_bound(v.y as int, hhf as int, 0x12_0000, 0x800_0000_0000);
            lemma_fx_mul_bound(v.z as int, hhf as int, 0x12_0000, 0x800_0000_0000);
            lemma_fx_mul_bound(w.x as int, focus_dist as int, 196608, 0x8_0000_0000);
            lemma_fx_mul_bound(w.y as int, focus_dist as int, 196608, 0x8_0000_0000);
            lemma_fx_mul_bound(w.z as int, focus_dist as int, 196608, 0x8_0000_0000);
        }
        let uhw = u.scale(hwf);
        let vhh = v.scale(hhf);
        let wf = w.scale(focus_dist);
        let lower_left_corner = Vec3 {
            x: -uhw.x - vhh.x - wf.x,
            y: -uhw.y - vhh.y - wf.y,
            z: -uhw.z - vhh.z - wf.z,
        };
        let horizontal = Vec3 { x: 2 * uhw.x, y: 2 * uhw.y, z: 2 * uhw.z };
        let vertical = Vec3 { x: 2 * vhh.x, y: 2 * vhh.y, z: 2 * vhh.z };
        if !(cam_in_range(&lower_left_corner) && cam_in_range(&horizontal) && cam_in_range(
            &vertical,
        )) {
            return None;
        }
        Some(
            Camera {
                origin: look_from,
                lower_left_corner,
                horizontal,
                vertical,
                u,
                v,
                lens_radius,
                time0: t0,
                time1: t1,
            },
        )
    }

    /// Generate the ray through screen position `(s, t)` at a fresh
    /// wavelength: the lens offset is drawn from the unit disk, the
    /// shutter time uniformly from the interval, and the direction
    /// points from the offset origin at the focal-plane point.
    pub fn get_ray(&self, rng: &mut TracerRng, s: i64, t: i64, wl: i64) -> (r: Ray)
        requires
            camera_wf(*self),
            0 <= s <= ONE,
            0 <= t <= ONE,
            0 <= wl <= 0x1000_0000,
        ensures
            ray_wf(r),
            r.wl == wl,
            self.time0 <= r.ti < self.time1,
            exists|rd: Vec3|
                {
                    &&& dot_spec(rd, rd) < ONE
                    &&& rd.z == 0
                    &&& r.direction == clamp_dir_spec(
                        cam_raw_dir(*self, s as int, t as int, #[trigger] cam_offset(*self, rd)),
                    )
                    &&& r.origin == clamp_origin_spec(
                        cam_ray_origin(*self, cam_offset(*self, rd)),
                    )
                },
    {
        let rd = rng.rand_in_unit_disk();
        proof {
            lemma_fx_mul_bound(rd.x as int, self.lens_radius as int, 65536, 65536);
            lemma_fx_mul_bound(rd.y as int, self.lens_radius as int, 65536, 65536);
        }
        let rdx = mul_fx(rd.x, self.lens_radius);
        let rdy = mul_fx(rd.y, self.lens_radius);
        proof {
            lemma_fx_mul_bound(self.u.x as int, rdx as int, 196608, 65536);
            lemma_fx_mul_bound(self.u.y as int, rdx as int, 196608, 65536);
            lemma_fx_mul_bound(self.u.z as int, rdx as int, 196608, 65536);
            lemma_fx_mul_bound(self.v.x as int, rdy as int, 0x12_0000, 65536);
            lemma_fx_mul_bound(self.v.y as int, rdy as int, 0x12_0000, 65536);
            lemma_fx_mul_bound(self.v.z as int, rdy as int, 0x12_0000, 65536);
        }
        let ou = self.u.scale(rdx);
        let ov = self.v.scale(rdy);
        let offset = Vec3 { x: ou.x + ov.x, y: ou.y + ov.y, z: ou.z + ov.z };
        let ti = rng.gen_range(self.time0, self.time1);
        proof {
            lemma_fx_mul_bound(self.horizontal.x as int, s as int, CAM_MAX as int, 65536);
            lemma_fx_mul_bound(self.horizontal.y as int, s as int, CAM_MAX as int, 65536);
            lemma_fx_mul_bound(self.horizontal.z as int, s as int, CAM_MAX as int, 65536);
            lemma_fx_mul_bound(self.vertical.x as int, t as int, CAM_MAX as int, 65536);
            lemma_fx_mul_bound(self.vertical.y as int, t as int, CAM_MAX as int, 65536);
            lemma_fx_mul_bound(self.vertical.z as int, t as int, CAM_MAX as int, 65536);
        }
        let hs = self.horizontal.scale(s);
        let vt = self.vertical.scale(t);
        let dir_raw = Vec3 {
            x: self.lower_left_corner.x + hs.x + vt.x - offset.x,
            y: self.lower_left_corner.y + hs.y + vt.y - offset.y,
            z: self.lower_left_corner.z + hs.z + vt.z - offset.z,
        };
        let direction = clamp_dir(dir_raw);
        let origin = Vec3 {
            x: self.origin.x + offset.x,
            y: self.origin.y + offset.y,
            z: self.origin.z + offset.z,
        };
        let origin = clamp_origin(origin);
        proof {
            let off = cam_offset(*self, rd);
            assert(offset == off);
            assert(dir_raw == cam_raw_dir(*self, s as int, t as int, off));
            assert(direction == clamp_dir_spec(cam_raw_dir(*self, s as int, t as int, off)));
            assert(origin == clamp_origin_spec(cam_ray_origin(*self, off)));
        }
        Ray::new(origin, direction, wl, ti)
    }
}

fn cam_in_range(v: &Vec3) -> (r: bool)
    ensures
        r == cam_vec_ok(*v),
{
    v.x >= -CAM_MAX && v.x <= CAM_MAX && v.y >= -CAM_MAX && v.y <= CAM_MAX && v.z >= -CAM_MAX
        && v.z <= CAM_MAX
}

/// Clamp a direction into the admissible band.
fn clamp_dir(v: Vec3) -> (r: Vec3)
    ensures
        r == clamp_dir_spec(v),
        dir_ok(r),
        vec_ok(r),
{
    Vec3 {
        x: if v.x > DMAX {
            DMAX
        } else if v.x < -DMAX {
            -DMAX
        } else {
            v.x
        },
        y: if v.y > DMAX {
            DMAX
        } else if v.y < -DMAX {
            -DMAX
        } else {
            v.y
        },
        z: if v.z > DMAX {
            DMAX
        } else if v.z < -DMAX {
            -DMAX
        } else {
            v.z
        },
    }
}

/// Clamp a point into the coordinate range.
fn clamp_origin(v: Vec3) -> (r: Vec3)
    ensures
        r == clamp_origin_spec(v),
        vec_ok(r),
{
    let lim: i64 = CMAX - 1;
    Vec3 {
        x: if v.x > lim {
            lim
        } else if v.x < -lim {
            -lim
        } else {
            v.x
        },
        y: if v.y > lim {
            lim
        } else if v.y < -lim {
            -lim
        } else {
            v.y
        },
        z: if v.z > lim {
            lim
        } else if v.z < -lim {
            -lim
        } else {
            v.z
        },
    }
}

} // verus!
