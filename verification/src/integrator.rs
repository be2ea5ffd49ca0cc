//! The path integrator: iterative bounced-ray evaluation of the
//! reflectance along one camera ray, at one wavelength.

use vstd::prelude::*;
use vstd::arithmetic::div_mod::lemma_div_pos_is_pos;
use crate::fixed::{SCALE, ONE, HALF, abs_i, div_tz, fx_mul, mul_fx, lemma_fx_mul_bound};
use crate::vec3::Vec3;
use crate::ray::{Ray, ray_wf};
use crate::color::{Rgb, rgb_ok};
use crate::random::TracerRng;
use crate::material::{Material, material_ok, material_emittance, ScatterResult};
use crate::bvh::{BVH, bvh_wf, bvh_covers};
use crate::texture::{texture_ok, texture_value};
use crate::primitive::{Primitive, prim_hit_t, prim_hit_uv, prim_texture};
use crate::hitable::hit_ok;

verus! {

/// Hard cap on the number of bounces.
pub const MAX_DEPTH: usize = 50;

/// Cap on the gathered radiance; paths whose running values leave this
/// band are cut short with what was gathered so far.
pub const RAD_MAX: i64 = 0x1000_0000_0000;

/// Cap on the running attenuation product.
pub const ATT_MAX: i64 = 0x1_0000_0000;

/// A radiance value clipped into the gathered band.
pub open spec fn clamp_rad(e: int) -> int {
    if e < 0 {
        0
    } else if e > RAD_MAX as int {
        RAD_MAX as int
    } else {
        e
    }
}

/// Whether every primitive misses the ray over the interval.
pub open spec fn all_miss(items: Seq<Primitive>, r: Ray, t_min: int, t_max: int) -> bool {
    forall|j: int|
        0 <= j < items.len() ==> prim_hit_t(#[trigger] items[j], r, t_min, t_max) is None
}

/// The unit height of a direction, or zero for a degenerate one.
pub open spec fn sky_uy(d: Vec3) -> int {
    if crate::primitive::unit_vec_ok(d) {
        crate::primitive::unit_vec_spec(d).y as int
    } else {
        0
    }
}

/// The sky's reflectance for a unit height and a wavelength: a blend
/// from white at the horizon to sky blue upward, clipped below at zero.
pub open spec fn sky_spec(uy: int, wl: int) -> int {
    let tr = fx_mul(uy + ONE, HALF as int);
    let t = if tr < 0 {
        0
    } else if tr > ONE as int {
        ONE as int
    } else {
        tr
    };
    let rgb = Rgb {
        red: (ONE - fx_mul(HALF as int, t)) as i64,
        green: (ONE - fx_mul(0x4CCC, t)) as i64,
        blue: ONE,
    };
    let refl = crate::color::smits_bin(rgb, crate::color::bin_index(wl));
    if refl < 0 {
        0
    } else {
        refl
    }
}

/// One primitive's hit at `tt` is the closest over the whole scene.
pub open spec fn closest_hit_at(
    items: Seq<Primitive>,
    r: Ray,
    t_min: int,
    t_max: int,
    j: int,
    tt: int,
) -> bool {
    &&& 0 <= j < items.len()
    &&& prim_hit_t(items[j], r, t_min, t_max) == Some(tt)
    &&& forall|i: int|
        0 <= i < items.len() ==> match #[trigger] prim_hit_t(items[i], r, t_min, t_max) {
            Some(t2) => tt <= t2,
            None => true,
        }
}

/// The material standing at a primitive's hit.
pub open spec fn hit_material(items: Seq<Primitive>, r: Ray, j: int, tt: int) -> Material {
    texture_value(
        prim_texture(items[j]),
        prim_hit_uv(items[j], r, tt).0,
        prim_hit_uv(items[j], r, tt).1,
    )
}

/// The reflectance the sky contributes for a direction with unit `y`
/// component `uy`: a blend from white at the horizon to sky blue
/// upward, looked up at the wavelength.
fn sky_reflect(uy: i64, wl: i64) -> (res: i64)
    requires
        abs_i(uy as int) <= 3 * ONE,
        0 <= wl <= 0x1000_0000,
    ensures
        res == sky_spec(uy as int, wl as int),
        0 <= res,
{
    let tr: i64 = mul_fx(uy + ONE, HALF);
    let t: i64 = if tr < 0 {
        0
    } else if tr > ONE {
        ONE
    } else {
        tr
    };
    proof {
        lemma_fx_mul_bound(HALF as int, t as int, 32768, 65536);
        lemma_fx_mul_bound(0x4CCC as int, t as int, 0x4CCC, 65536);
        lemma_fx_mul_pos(HALF as int, t as int);
        lemma_fx_mul_pos(0x4CCC as int, t as int);
    }
    // white = (1, 1, 1), sky blue = (0.5, 0.7, 1.0)
    let red: i64 = ONE - mul_fx(HALF, t);
    let green: i64 = ONE - mul_fx(0x4CCC, t);
    let blue: i64 = ONE;
    let rgb = Rgb { red, green, blue };
    let refl = rgb.reflect(wl);
    proof {
        crate::color::lemma_reflect_lower(rgb, wl as int);
        crate::color::lemma_bin_index_range(wl as int);
    }
    if refl < 0 {
        0
    } else {
        refl
    }
}

proof fn lemma_fx_mul_pos(a: int, k: int)
    requires
        0 <= a,
        0 <= k,
    ensures
        0 <= fx_mul(a, k),
{
    assert(a * k >= 0) by (nonlinear_arith)
        requires
            0 <= a && 0 <= k,
    {}
    lemma_div_pos_is_pos(a * k, SCALE as int);
}

/// The scaling by one is exact.
proof fn lemma_fx_mul_one(x: int)
    ensures
        fx_mul(x, ONE as int) == x,
{
    if x >= 0 {
        vstd::arithmetic::div_mod::lemma_div_multiples_vanish(x, SCALE as int);
    } else {
        vstd::arithmetic::div_mod::lemma_div_multiples_vanish(-x, SCALE as int);
    }
}

/// Evaluate one path: walk up to the depth cap, adding each surface's
/// emittance scaled by the attenuation gathered so far, and following
/// the scattered ray; a miss adds the sky, if the scene renders one,
/// and ends the path. The result is a nonnegative bounded reflectance
/// at the ray's wavelength. When every primitive misses the ray, the
/// result is exactly the sky term, or zero without a sky; and under the
/// covering premise, when the closest surface the ray meets is an
/// emitter, the result is exactly its clamped emittance.
pub fn reflectance(world: &BVH, rng: &mut TracerRng, ray: Ray, render_sky: bool) -> (res: i64)
    requires
        bvh_wf(*world),
        ray_wf(ray),
        0 <= ray.ti <= ONE,
        0 <= ray.wl <= 0x1000_0000,
    ensures
        0 <= res <= RAD_MAX,
        all_miss(world.items@, ray, 16, i64::MAX as int) ==> res == if render_sky {
            clamp_rad(sky_spec(sky_uy(ray.direction), ray.wl as int))
        } else {
            0int
        },
        bvh_covers(*world, ray, 16) && !all_miss(world.items@, ray, 16, i64::MAX as int)
            ==> exists|j: int, tt: int|
            #[trigger] closest_hit_at(world.items@, ray, 16, i64::MAX as int, j, tt) && (
            hit_material(world.items@, ray, j, tt) is DiffuseLight ==> res == clamp_rad(
                material_emittance(hit_material(world.items@, ray, j, tt), ray.wl as int),
            )),
{
    let ghost covered = bvh_covers(*world, ray, 16);
    let ghost mut wit_j: int = 0;
    let ghost mut wit_t: int = 0;
    let mut r = ray;
    let mut res: i64 = 0;
    let mut att_acc: i64 = ONE;
    let mut depth: usize = 0;
    while depth < MAX_DEPTH
        invariant
            bvh_wf(*world),
            ray_wf(r),
            0 <= r.ti <= ONE,
            0 <= r.wl <= 0x1000_0000,
            0 <= res <= RAD_MAX,
            0 <= att_acc <= ATT_MAX,
            ray_wf(ray),
            0 <= ray.wl <= 0x1000_0000,
            covered == bvh_covers(*world, ray, 16),
            depth == 0 ==> r == ray && res == 0 && att_acc == ONE,
            depth > 0 ==> !all_miss(world.items@, ray, 16, i64::MAX as int),
            depth > 0 && covered ==> closest_hit_at(
                world.items@,
                ray,
                16,
                i64::MAX as int,
                wit_j,
                wit_t,
            ) && !(hit_material(world.items@, ray, wit_j, wit_t) is DiffuseLight),
        decreases MAX_DEPTH - depth,
    {
        let ghost depth0 = depth;
        let rec = world.hit(r, 16, i64::MAX);
        match rec {
            Some(rec) => {
                proof {
                    if depth0 == 0 {
                        let jj = choose|j: int|
                            0 <= j < world.items@.len() && prim_hit_t(
                                #[trigger] world.items@[j],
                                r,
                                16,
                                i64::MAX as int,
                            ) == Some(rec.t as int) && rec.p == crate::primitive::prim_hit_point(
                                world.items@[j],
                                r,
                                rec.t as int,
                            ) && rec.normal == crate::primitive::prim_hit_normal(
                                world.items@[j],
                                r,
                                rec.t as int,
                            ) && (rec.u as int, rec.v as int) == crate::primitive::prim_hit_uv(
                                world.items@[j],
                                r,
                                rec.t as int,
                            ) && *rec.texture == prim_texture(world.items@[j]);
                        wit_j = jj;
                        wit_t = rec.t as int;
                    }
                }
                let mat: Material = rec.texture.value(rec.u, rec.v);
                proof {
                    if depth0 == 0 && covered {
                        assert(closest_hit_at(
                            world.items@,
                            ray,
                            16,
                            i64::MAX as int,
                            wit_j,
                            wit_t,
                        ));
                        assert(mat == hit_material(world.items@, ray, wit_j, wit_t));
                    }
                }
                let sr: ScatterResult = mat.scatter(rng, r, &rec);
                let e: i64 = sr.emittance;
                proof {
                    crate::color::lemma_bin_index_range(r.wl as int);
                }
                let e: i64 = if e < 0 {
                    0
                } else if e > RAD_MAX {
                    RAD_MAX
                } else {
                    e
                };
                proof {
                    lemma_fx_mul_pos(e as int, att_acc as int);
                    lemma_fx_mul_bound(e as int, att_acc as int, RAD_MAX as int, ATT_MAX as int);
                    lemma_fx_mul_one(e as int);
                }
                let gain: i64 = mul_fx(e, att_acc);
                if gain > RAD_MAX - res {
                    return RAD_MAX;
                }
                res = res + gain;
                match sr.reflection {
                    None => {
                        return res;
                    },
                    Some((att, scattered)) => {
                        let att: i64 = if att < 0 {
                            0
                        } else if att > ATT_MAX {
                            ATT_MAX
                        } else {
                            att
                        };
                        proof {
                            lemma_fx_mul_pos(att_acc as int, att as int);
                            lemma_fx_mul_bound(
                                att_acc as int,
                                att as int,
                                ATT_MAX as int,
                                ATT_MAX as int,
                            );
                        }
                        let next_acc = mul_fx(att_acc, att);
                        if next_acc > ATT_MAX {
                            return res;
                        }
                        att_acc = next_acc;
                        r = scattered;
                        depth = depth + 1;
                    },
                }
            },
            None => {
                proof {
                    if covered && depth0 == 0 {
                        assert(all_miss(world.items@, ray, 16, i64::MAX as int));
                    }
                }
                if render_sky {
                    let uy: i64 = match crate::triangle::unit_dir(r.direction) {
                        None => 0,
                        Some(u) => u.y,
                    };
                    let s = sky_reflect(uy, r.wl);
                    let s: i64 = if s > RAD_MAX {
                        RAD_MAX
                    } else {
                        s
                    };
                    proof {
                        lemma_fx_mul_pos(s as int, att_acc as int);
                        lemma_fx_mul_bound(s as int, att_acc as int, RAD_MAX as int, ATT_MAX as int);
                        lemma_fx_mul_one(s as int);
                    }
                    let gain = mul_fx(s, att_acc);
                    if gain > RAD_MAX - res {
                        return RAD_MAX;
                    }
                    res = res + gain;
                }
                return res;
            },
        }
    }
    res
}

} // verus!