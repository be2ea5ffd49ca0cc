//! Surface materials: how a ray scatters or is absorbed at a hit.

use vstd::prelude::*;
use crate::fixed::{
    SCALE, ONE, abs_i, div_tz, fx_mul, fx_div, mul_fx, div_fx, sqrt_fx, isqrt_spec,
    lemma_fx_mul_bound, lemma_div_tz_abs, lemma_abs_mul_le,
};
use vstd::arithmetic::div_mod::{lemma_div_nonincreasing, lemma_div_pos_is_pos, lemma_div_is_ordered};
use crate::vec3::{Vec3, vec_ok, coord_ok, dot_spec, CMAX};
use crate::ray::{Ray, ray_wf, dir_ok, DMAX};
use crate::color::{Rgb, rgb_ok, smits_bin, bin_index};
use crate::random::TracerRng;
use crate::hitable::{HitRecord, hit_ok, NMAX};

verus! {

/// What a material does with an incoming ray at a hit: it emits some
/// radiance at the ray's wavelength and may scatter an attenuated ray.
pub struct ScatterResult {
    pub emittance: i64,
    pub reflection: Option<(i64, Ray)>,
}

/// Mirror reflection of `v` about the normal `n`.
pub open spec fn reflect_spec(v: Vec3, n: Vec3) -> (int, int, int) {
    let d2 = 2 * dot_spec(v, n);
    (
        v.x - fx_mul(n.x as int, d2),
        v.y - fx_mul(n.y as int, d2),
        v.z - fx_mul(n.z as int, d2),
    )
}

/// Mirror reflection, exact per `reflect_spec`.
pub fn reflect(v: Vec3, n: Vec3) -> (r: Vec3)
    requires
        vec_ok(v),
        abs_i(n.x as int) <= NMAX as int,
        abs_i(n.y as int) <= NMAX as int,
        abs_i(n.z as int) <= NMAX as int,
    ensures
        (r.x as int, r.y as int, r.z as int) == reflect_spec(v, n),
        abs_i(r.x as int) <= 0x6100_0000_0000_0000,
        abs_i(r.y as int) <= 0x6100_0000_0000_0000,
        abs_i(r.z as int) <= 0x6100_0000_0000_0000,
{
    proof {
        lemma_abs_mul_le(v.x as int, n.x as int, CMAX as int, NMAX as int);
        lemma_abs_mul_le(v.y as int, n.y as int, CMAX as int, NMAX as int);
        lemma_abs_mul_le(v.z as int, n.z as int, CMAX as int, NMAX as int);
        lemma_div_tz_abs(v.x * n.x + v.y * n.y + v.z * n.z, SCALE as int);
        lemma_div_is_ordered(
            abs_i(v.x * n.x + v.y * n.y + v.z * n.z),
            3 * (CMAX as int) * (NMAX as int),
            SCALE as int,
        );
        lemma_div_pos_is_pos(abs_i(v.x * n.x + v.y * n.y + v.z * n.z), SCALE as int);
    }
    let wide: i128 = (v.x as i128) * (n.x as i128) + (v.y as i128) * (n.y as i128) + (v.z as i128)
        * (n.z as i128);
    let d: i64 = crate::fixed::div_trunc_i128(wide, SCALE as i128) as i64;
    let d2: i64 = 2 * d;
    proof {
        lemma_fx_mul_bound(n.x as int, d2 as int, NMAX as int, 0x6_0000_0000_0000);
        lemma_fx_mul_bound(n.y as int, d2 as int, NMAX as int, 0x6_0000_0000_0000);
        lemma_fx_mul_bound(n.z as int, d2 as int, NMAX as int, 0x6_0000_0000_0000);
    }
    Vec3 {
        x: v.x - mul_fx(n.x, d2),
        y: v.y - mul_fx(n.y, d2),
        z: v.z - mul_fx(n.z, d2),
    }
}

/// Whether a vector can serve as a ray direction without further ado.
pub open spec fn scatter_dir_ok(d: Vec3) -> bool {
    vec_ok(d) && dir_ok(d)
}

/// The componentwise sum of two vectors, clipped to the machine words.
pub open spec fn vadd_c(a: Vec3, b: Vec3) -> Vec3 {
    Vec3 { x: (a.x + b.x) as i64, y: (a.y + b.y) as i64, z: (a.z + b.z) as i64 }
}

/// A matte scatter direction: the normal plus a point of the open unit
/// ball, or the normal itself when sampling fell back.
pub open spec fn lambertian_dir(d: Vec3, n: Vec3) -> bool {
    d == n || exists|u: Vec3| dot_spec(u, u) < ONE && d == vadd_c(n, u)
}

/// Whether a candidate direction lies strictly inside the admissible
/// band, so the fallback is not taken.
pub open spec fn dir_in_band(d: Vec3) -> bool {
    -DMAX < d.x < DMAX && -DMAX < d.y < DMAX && -DMAX < d.z < DMAX
}

/// A metallic scatter direction: the mirror direction perturbed by a
/// fuzz-scaled point of the unit ball; the normal stands in only when
/// that candidate leaves the direction band.
pub open spec fn metal_dir(d: Vec3, v: Vec3, n: Vec3, fuzz: int) -> bool {
    exists|u: Vec3|
        dot_spec(u, u) < ONE && d == ({
            let cand = Vec3 {
                x: (reflect_spec(v, n).0 + fx_mul(u.x as int, fuzz)) as i64,
                y: (reflect_spec(v, n).1 + fx_mul(u.y as int, fuzz)) as i64,
                z: (reflect_spec(v, n).2 + fx_mul(u.z as int, fuzz)) as i64,
            };
            if dir_in_band(cand) {
                cand
            } else {
                n
            }
        })
}

/// Take a candidate scatter direction if its components are in range,
/// else fall back to the surface normal, which always is.
fn take_dir(cand: Vec3, n: Vec3) -> (d: Vec3)
    requires
        abs_i(n.x as int) <= NMAX as int,
        abs_i(n.y as int) <= NMAX as int,
        abs_i(n.z as int) <= NMAX as int,
    ensures
        scatter_dir_ok(d),
        d == if dir_in_band(cand) {
            cand
        } else {
            n
        },
{
    if cand.x > -DMAX && cand.x < DMAX && cand.y > -DMAX && cand.y < DMAX && cand.z > -DMAX
        && cand.z < DMAX {
        cand
    } else {
        n
    }
}

/// A matte surface: scatters about the normal, attenuated by the
/// surface reflectance at the ray's wavelength.
#[derive(Clone, Copy, PartialEq, Eq, Structural, Debug)]
pub struct Lambertian {
    pub albedo: Rgb,
}

impl Lambertian {
    pub fn new(albedo: Rgb) -> (m: Lambertian)
        ensures
            m.albedo == albedo,
    {
        Lambertian { albedo }
    }

    /// Scatter: the new direction is the normal plus a point of the unit
    /// ball, redrawn while it comes out degenerate; emittance is zero
    /// and the attenuation is the albedo's reflectance at the ray's
    /// wavelength.
    pub fn scatter(&self, rng: &mut TracerRng, r_in: Ray, rec: &HitRecord) -> (res: ScatterResult)
        requires
            rgb_ok(self.albedo),
            hit_ok(*rec),
        ensures
            res.emittance == 0,
            res.reflection matches Some((att, ray)) && att == smits_bin(
                self.albedo,
                bin_index(r_in.wl as int),
            ) && ray.origin == rec.p && ray.wl == r_in.wl && ray.ti == r_in.ti && ray_wf(ray)
                && lambertian_dir(ray.direction, rec.normal),
    {
        let mut dir: Vec3 = rec.normal;
        let mut tries: usize = 0;
        let mut found: bool = false;
        while tries < 16 && !found
            invariant
                tries <= 16,
                hit_ok(*rec),
                scatter_dir_ok(dir),
                lambertian_dir(dir, rec.normal),
            decreases 16 - tries,
        {
            let u = rng.rand_in_unit_sphere();
            let cand = rec.normal.add(u);
            if cand.square_length() > 0 {
                dir = take_dir(cand, rec.normal);
                proof {
                    if dir == cand {
                        assert(dot_spec(u, u) < ONE && dir == vadd_c(rec.normal, u));
                    }
                }
                found = true;
            }
            tries = tries + 1;
        }
        let ray = Ray::new(rec.p, dir, r_in.wl, r_in.ti);
        let attenuation = self.albedo.reflect(r_in.wl);
        ScatterResult { emittance: 0, reflection: Some((attenuation, ray)) }
    }
}

/// A specular surface with roughness: reflects about the normal and
/// perturbs the result by a scaled point of the unit ball.
#[derive(Clone, Copy, PartialEq, Eq, Structural, Debug)]
pub struct Metal {
    pub albedo: Rgb,
    pub fuzz: i64,
}

impl Metal {
    /// The fuzz is clamped into `[0, 1]`.
    pub fn new(albedo: Rgb, fuzz: i64) -> (m: Metal)
        ensures
            m.albedo == albedo,
            m.fuzz == if fuzz < 0 {
                0i64
            } else if fuzz > ONE {
                ONE
            } else {
                fuzz
            },
    {
        let fuzz = if fuzz < 0 {
            0
        } else if fuzz > ONE {
            ONE
        } else {
            fuzz
        };
        Metal { albedo, fuzz }
    }

    pub fn scatter(&self, rng: &mut TracerRng, r_in: Ray, rec: &HitRecord) -> (res: ScatterResult)
        requires
            rgb_ok(self.albedo),
            0 <= self.fuzz <= ONE,
            hit_ok(*rec),
            ray_wf(r_in),
        ensures
            res.emittance == 0,
            res.reflection matches Some((att, ray)) && att == smits_bin(
                self.albedo,
                bin_index(r_in.wl as int),
            ) && ray.origin == rec.p && ray.wl == r_in.wl && ray.ti == r_in.ti && ray_wf(ray)
                && metal_dir(ray.direction, r_in.direction, rec.normal, self.fuzz as int),
    {
        let reflected = reflect(r_in.direction, rec.normal);
        let u = rng.rand_in_unit_sphere();
        proof {
            lemma_fx_mul_bound(u.x as int, self.fuzz as int, 65536, 65536);
            lemma_fx_mul_bound(u.y as int, self.fuzz as int, 65536, 65536);
            lemma_fx_mul_bound(u.z as int, self.fuzz as int, 65536, 65536);
        }
        let fz = u.scale(self.fuzz);
        let cand = Vec3 {
            x: reflected.x + fz.x,
            y: reflected.y + fz.y,
            z: reflected.z + fz.z,
        };
        let dir = take_dir(cand, rec.normal);
        proof {
            assert(cand == (Vec3 {
                x: (reflect_spec(r_in.direction, rec.normal).0 + fx_mul(
                    u.x as int,
                    self.fuzz as int,
                )) as i64,
                y: (reflect_spec(r_in.direction, rec.normal).1 + fx_mul(
                    u.y as int,
                    self.fuzz as int,
                )) as i64,
                z: (reflect_spec(r_in.direction, rec.normal).2 + fx_mul(
                    u.z as int,
                    self.fuzz as int,
                )) as i64,
            }));
            assert(metal_dir(dir, r_in.direction, rec.normal, self.fuzz as int));
        }
        let ray = Ray::new(rec.p, dir, r_in.wl, r_in.ti);
        let attenuation = self.albedo.reflect(r_in.wl);
        ScatterResult { emittance: 0, reflection: Some((attenuation, ray)) }
    }
}

/// A surface that only emits: the scatter carries the light's
/// reflectance at the ray's wavelength and terminates the path.
#[derive(Clone, Copy, PartialEq, Eq, Structural, Debug)]
pub struct DiffuseLight {
    pub light: Rgb,
}

impl DiffuseLight {
    pub fn new(light: Rgb) -> (m: DiffuseLight)
        ensures
            m.light == light,
    {
        DiffuseLight { light }
    }

    pub fn scatter(&self, r_in: Ray) -> (res: ScatterResult)
        requires
            rgb_ok(self.light),
        ensures
            res.emittance == smits_bin(self.light, bin_index(r_in.wl as int)),
            res.reflection is None,
    {
        let emittance = self.light.reflect(r_in.wl);
        ScatterResult { emittance, reflection: None }
    }
}

/// The unit vector along `v`: each component divided by the length.
/// Degenerate or out-of-range inputs give nothing.
fn unit_of(v: Vec3) -> (res: Option<Vec3>)
    requires
        vec_ok(v),
    ensures
        res matches Some(u) ==> {
            let len = isqrt_spec((dot_spec(v, v) * SCALE) as nat) as int;
            &&& len > 0
            &&& u.x == fx_div(v.x as int, len)
            &&& u.y == fx_div(v.y as int, len)
            &&& u.z == fx_div(v.z as int, len)
            &&& abs_i(u.x as int) <= 3 * ONE
            &&& abs_i(u.y as int) <= 3 * ONE
            &&& abs_i(u.z as int) <= 3 * ONE
        },
{
    let len = v.length();
    if len == 0 {
        return None;
    }
    proof {
        lemma_div_tz_abs(v.x * (SCALE as int), len as int);
        lemma_div_tz_abs(v.y * (SCALE as int), len as int);
        lemma_div_tz_abs(v.z * (SCALE as int), len as int);
        lemma_div_pos_is_pos(abs_i(v.x * (SCALE as int)), len as int);
        lemma_div_pos_is_pos(abs_i(v.y * (SCALE as int)), len as int);
        lemma_div_pos_is_pos(abs_i(v.z * (SCALE as int)), len as int);
        lemma_div_nonincreasing(abs_i(v.x * (SCALE as int)), len as int);
        lemma_div_nonincreasing(abs_i(v.y * (SCALE as int)), len as int);
        lemma_div_nonincreasing(abs_i(v.z * (SCALE as int)), len as int);
    }
    let ux = div_fx(v.x, len);
    let uy = div_fx(v.y, len);
    let uz = div_fx(v.z, len);
    let lim: i64 = 3 * ONE;
    if ux >= -lim && ux <= lim && uy >= -lim && uy <= lim && uz >= -lim && uz <= lim {
        Some(Vec3 { x: ux, y: uy, z: uz })
    } else {
        None
    }
}

/// Snell refraction of the unit direction `uv` about `n` with relative
/// index `ratio`; nothing when total internal reflection occurs.
pub open spec fn refract_disc(uv: Vec3, n: Vec3, ratio: int) -> int {
    let dt = dot_spec(uv, n);
    ONE - fx_mul(fx_mul(ratio, ratio), ONE - fx_mul(dt, dt))
}

/// The refracted direction, when the discriminant admits one.
pub open spec fn refract_vec(uv: Vec3, n: Vec3, ratio: int) -> Vec3 {
    let dt = dot_spec(uv, n);
    let sq = isqrt_spec((refract_disc(uv, n, ratio) * SCALE) as nat) as int;
    Vec3 {
        x: (fx_mul(uv.x - fx_mul(n.x as int, dt), ratio) - fx_mul(n.x as int, sq)) as i64,
        y: (fx_mul(uv.y - fx_mul(n.y as int, dt), ratio) - fx_mul(n.y as int, sq)) as i64,
        z: (fx_mul(uv.z - fx_mul(n.z as int, dt), ratio) - fx_mul(n.z as int, sq)) as i64,
    }
}

fn refract(uv: Vec3, n: Vec3, ratio: i64) -> (res: Option<Vec3>)
    requires
        abs_i(uv.x as int) <= 3 * ONE,
        abs_i(uv.y as int) <= 3 * ONE,
        abs_i(uv.z as int) <= 3 * ONE,
        abs_i(n.x as int) <= NMAX as int,
        abs_i(n.y as int) <= NMAX as int,
        abs_i(n.z as int) <= NMAX as int,
        0 <= ratio <= 8 * ONE,
    ensures
        res is Some <==> refract_disc(uv, n, ratio as int) > 0,
        res matches Some(v) ==> v == refract_vec(uv, n, ratio as int),
{
    proof {
        lemma_abs_mul_le(uv.x as int, n.x as int, 3 * ONE, NMAX as int);
        lemma_abs_mul_le(uv.y as int, n.y as int, 3 * ONE, NMAX as int);
        lemma_abs_mul_le(uv.z as int, n.z as int, 3 * ONE, NMAX as int);
        lemma_div_tz_abs(uv.x * n.x + uv.y * n.y + uv.z * n.z, SCALE as int);
        lemma_div_is_ordered(
            abs_i(uv.x * n.x + uv.y * n.y + uv.z * n.z),
            9 * (ONE as int) * (NMAX as int),
            SCALE as int,
        );
        lemma_div_pos_is_pos(abs_i(uv.x * n.x + uv.y * n.y + uv.z * n.z), SCALE as int);
    }
    let wide: i128 = (uv.x as i128) * (n.x as i128) + (uv.y as i128) * (n.y as i128) + (uv.z
        as i128) * (n.z as i128);
    let dt: i64 = crate::fixed::div_trunc_i128(wide, SCALE as i128) as i64;
    proof {
        lemma_fx_mul_bound(ratio as int, ratio as int, 524288, 524288);
        lemma_fx_mul_bound(dt as int, dt as int, 0x9000_0000, 0x9000_0000);
        lemma_fx_mul_bound(
            fx_mul(ratio as int, ratio as int),
            ONE as int - fx_mul(dt as int, dt as int),
            4194304,
            0x5200_0000_0000,
        );
    }
    let r2: i64 = mul_fx(ratio, ratio);
    let dt2: i64 = mul_fx(dt, dt);
    let disc: i64 = ONE - mul_fx(r2, ONE - dt2);
    if disc > 0 {
        proof {
            
            lemma_fx_mul_bound(n.x as int, dt as int, 0x1000_0000, 0x9000_0000);
            lemma_fx_mul_bound(n.y as int, dt as int, 0x1000_0000, 0x9000_0000);
            lemma_fx_mul_bound(n.z as int, dt as int, 0x1000_0000, 0x9000_0000);
        }
        let px: i64 = uv.x - mul_fx(n.x, dt);
        let py: i64 = uv.y - mul_fx(n.y, dt);
        let pz: i64 = uv.z - mul_fx(n.z, dt);
        let sq: i64 = sqrt_fx(disc);
        proof {
            lemma_fx_mul_bound(px as int, ratio as int, 0x5000_0000_0000, 524288);
            lemma_fx_mul_bound(py as int, ratio as int, 0x5000_0000_0000, 524288);
            lemma_fx_mul_bound(pz as int, ratio as int, 0x5000_0000_0000, 524288);
            lemma_isqrt_le_input(disc as int);
            lemma_fx_mul_bound(n.x as int, sq as int, 0x1000_0000, 0x80_0000_0000);
            lemma_fx_mul_bound(n.y as int, sq as int, 0x1000_0000, 0x80_0000_0000);
            lemma_fx_mul_bound(n.z as int, sq as int, 0x1000_0000, 0x80_0000_0000);
        }
        Some(
            Vec3 {
                x: mul_fx(px, ratio) - mul_fx(n.x, sq),
                y: mul_fx(py, ratio) - mul_fx(n.y, sq),
                z: mul_fx(pz, ratio) - mul_fx(n.z, sq),
            },
        )
    } else {
        None
    }
}

/// The square root of a bounded fixed-point value stays well bounded.
proof fn lemma_isqrt_le_input(a: int)
    requires
        0 <= a <= 0x4000_0000_0000_0000,
    ensures
        0 <= isqrt_spec((a * SCALE) as nat) <= 0x80_0000_0000,
{
    let n = (a * SCALE) as nat;
    crate::fixed::lemma_isqrt_exists(n);
    let r = isqrt_spec(n);
    assert((r * r) <= n && n < (r + 1) * (r + 1)) by {
        let w = choose|w: nat| #[trigger] (w * w) <= n && n < (w + 1) * (w + 1);
        crate::fixed::lemma_isqrt_unique(n, w);
    }
    assert(r <= 0x80_0000_0000) by (nonlinear_arith)
        requires
            (r * r) <= n,
            n <= 0x4000_0000_0000_0000_0000,
    {}
}

/// Schlick's approximation of Fresnel reflectance.
pub open spec fn schlick_spec(cosine: int, ref_idx: int) -> int {
    let q = fx_div(ONE - ref_idx, ONE + ref_idx);
    let r0 = fx_mul(q, q);
    let f = ONE - cosine;
    r0 + fx_mul(ONE - r0, fx_mul(f, fx_mul(f, fx_mul(f, fx_mul(f, f)))))
}

fn schlick(cosine: i64, ref_idx: i64) -> (r: i64)
    requires
        0 <= ref_idx <= 8 * ONE,
        abs_i(cosine as int) <= 4 * ONE,
    ensures
        r == schlick_spec(cosine as int, ref_idx as int),
{
    proof {
        lemma_div_tz_abs((ONE as int - ref_idx) * (SCALE as int), ONE as int + ref_idx);
        lemma_div_pos_is_pos(abs_i((ONE as int - ref_idx) * (SCALE as int)), ONE as int + ref_idx);
        vstd::arithmetic::div_mod::lemma_div_is_ordered_by_denominator(
            abs_i((ONE as int - ref_idx) * (SCALE as int)),
            ONE as int,
            ONE as int + ref_idx,
        );
        vstd::arithmetic::div_mod::lemma_div_multiples_vanish(
            abs_i(ONE as int - ref_idx),
            SCALE as int,
        );
        assert(abs_i((ONE as int - ref_idx) * (SCALE as int)) == abs_i(ONE as int - ref_idx) * (
        SCALE as int)) by (nonlinear_arith) {}
    }
    let q: i64 = div_fx(ONE - ref_idx, ONE + ref_idx);
    proof {
        assert(abs_i(q as int) <= 458752);
        lemma_fx_mul_bound(q as int, q as int, 458753, 458753);
    }
    let r0: i64 = mul_fx(q, q);
    let f: i64 = ONE - cosine;
    proof {
        lemma_fx_mul_bound(f as int, f as int, 327680, 327680);
        lemma_fx_mul_bound(f as int, fx_mul(f as int, f as int), 327680, 1638400);
        lemma_fx_mul_bound(
            f as int,
            fx_mul(f as int, fx_mul(f as int, f as int)),
            327680,
            8192000,
        );
        lemma_fx_mul_bound(
            f as int,
            fx_mul(f as int, fx_mul(f as int, fx_mul(f as int, f as int))),
            327680,
            40960000,
        );
        lemma_fx_mul_bound(
            ONE as int - r0,
            fx_mul(f as int, fx_mul(f as int, fx_mul(f as int, fx_mul(f as int, f as int)))),
            0x33_0000_0000,
            204800000,
        );
    }
    let f5: i64 = mul_fx(f, mul_fx(f, mul_fx(f, mul_fx(f, f))));
    r0 + mul_fx(ONE - r0, f5)
}

/// A dispersive dielectric: the refractive index follows a three-term
/// Sellmeier law in the ray's wavelength.
#[derive(Clone, Copy, PartialEq, Eq, Structural, Debug)]
pub struct Dielectric {
    pub b1: i64,
    pub b2: i64,
    pub b3: i64,
    pub c1: i64,
    pub c2: i64,
    pub c3: i64,
}

/// One Sellmeier term, clamped to a physically generous band; a pole
/// exactly at the wavelength contributes nothing rather than dividing
/// by zero.
pub open spec fn sellmeier_term(b: int, c: int, wl2: int) -> int {
    if wl2 - c == 0 {
        0
    } else {
        clamp_i(fx_div(fx_mul(b, wl2), wl2 - c), -(16 * ONE as int), 16 * ONE as int)
    }
}

pub open spec fn clamp_i(v: int, lo: int, hi: int) -> int {
    if v < lo {
        lo
    } else if v > hi {
        hi
    } else {
        v
    }
}

/// The squared refractive index at a wavelength.
pub open spec fn sellmeier_n2(d: Dielectric, wl: int) -> int {
    let wl2 = fx_mul(wl, wl);
    ONE + sellmeier_term(d.b1 as int, d.c1 as int, wl2) + sellmeier_term(
        d.b2 as int,
        d.c2 as int,
        wl2,
    ) + sellmeier_term(d.b3 as int, d.c3 as int, wl2)
}

/// The clamped refractive index the dielectric uses at a wavelength.
pub open spec fn diel_index(d: Dielectric, wl: int) -> int {
    let n = isqrt_spec((max_0(sellmeier_n2(d, wl)) * SCALE) as nat) as int;
    if n > 8 * (ONE as int) {
        8 * (ONE as int)
    } else {
        n
    }
}

/// Whether the ray leaves the medium: it runs along the outward normal.
pub open spec fn diel_exiting(v: Vec3, n: Vec3) -> bool {
    dot_spec(v, n) > 0
}

/// The surface-relative normal the refraction uses.
pub open spec fn diel_outward(n: Vec3, exiting: bool) -> Vec3 {
    if exiting {
        Vec3 { x: (-(n.x as int)) as i64, y: (-(n.y as int)) as i64, z: (-(n.z as int)) as i64 }
    } else {
        n
    }
}

/// The clamped ratio of indices across the surface.
pub open spec fn diel_ratio(d: Dielectric, wl: int, exiting: bool) -> int {
    let idx = diel_index(d, wl);
    if exiting {
        idx
    } else {
        if idx == 0 {
            8 * (ONE as int)
        } else {
            let inv = fx_div(ONE as int, idx);
            if inv > 8 * (ONE as int) {
                8 * (ONE as int)
            } else {
                inv
            }
        }
    }
}

/// What a dielectric may scatter into: the mirror direction (total
/// internal reflection, or a passing Fresnel draw), the Snell
/// refraction of the unit incoming direction about the surface-relative
/// normal, or the surface normal when a candidate leaves the direction
/// range.
pub open spec fn dielectric_dir(dir: Vec3, v: Vec3, n: Vec3, d: Dielectric, wl: int) -> bool {
    let refl = reflect_spec(v, n);
    let uv = crate::primitive::unit_vec_spec(v);
    let exiting = diel_exiting(v, n);
    let outward = diel_outward(n, exiting);
    let ratio = diel_ratio(d, wl, exiting);
    ||| dir == n
    ||| (dir.x as int, dir.y as int, dir.z as int) == refl
    ||| (refract_disc(uv, outward, ratio) > 0 && dir == refract_vec(uv, outward, ratio))
}

pub open spec fn dielectric_ok(d: Dielectric) -> bool {
    0 <= d.b1 <= 4 * ONE && 0 <= d.b2 <= 4 * ONE && 0 <= d.b3 <= 4 * ONE && 0 <= d.c1 && 0 <= d.c2
        && 0 <= d.c3
}

impl Dielectric {
    /// The BAF10 optical glass.
    pub fn baf10() -> (d: Dielectric)
        ensures
            d.b1 == 103884 && d.b2 == 9408 && d.b3 == 71120,
            d.c1 == 607309845 && d.c2 == 2781936386 && d.c3 == 6921491120128,
            dielectric_ok(d),
    {
        Dielectric {
            b1: 103884,
            b2: 9408,
            b3: 71120,
            c1: 607309845,
            c2: 2781936386,
            c3: 6921491120128,
        }
    }

    /// The SF11 optical glass.
    pub fn sf11() -> (d: Dielectric)
        ensures
            d.b1 == 113875 && d.b2 == 20562 && d.b3 == 124439,
            d.c1 == 864335102 && d.c2 == 4083339375 && d.c3 == 10173565501440,
            dielectric_ok(d),
    {
        Dielectric {
            b1: 113875,
            b2: 20562,
            b3: 124439,
            c1: 864335102,
            c2: 4083339375,
            c3: 10173565501440,
        }
    }

    /// The SF66 optical glass.
    pub fn sf66() -> (d: Dielectric)
        ensures
            d.b1 == 132684 && d.b2 == 30814 && d.b3 == 170374,
            d.c1 == 963728015 && d.c2 == 4541633502 && d.c3 == 10604878299136,
            dielectric_ok(d),
    {
        Dielectric {
            b1: 132684,
            b2: 30814,
            b3: 170374,
            c1: 963728015,
            c2: 4541633502,
            c3: 10604878299136,
        }
    }

    /// The refractive index at a wavelength: the square root of the
    /// Sellmeier sum, clamped below at zero.
    pub fn refractive_index(&self, wl: i64) -> (n: i64)
        requires
            dielectric_ok(*self),
            0 <= wl <= 0x1000_0000,
        ensures
            n == isqrt_spec((max_0(sellmeier_n2(*self, wl as int)) * SCALE) as nat),
            n >= 0,
    {
        proof {
            lemma_fx_mul_bound(wl as int, wl as int, 0x1000_0000, 0x1000_0000);
        }
        let wl2: i64 = mul_fx(wl, wl);
        let t1: i64 = Self::term(self.b1, self.c1, wl2);
        let t2: i64 = Self::term(self.b2, self.c2, wl2);
        let t3: i64 = Self::term(self.b3, self.c3, wl2);
        let n2: i64 = ONE + t1 + t2 + t3;
        let clamped: i64 = if n2 < 0 {
            0
        } else {
            n2
        };
        sqrt_fx(clamped)
    }

    fn term(b: i64, c: i64, wl2: i64) -> (t: i64)
        requires
            0 <= b <= 4 * ONE,
            0 <= c,
            0 <= wl2 <= 0x1000_0000_0000,
        ensures
            t == sellmeier_term(b as int, c as int, wl2 as int),
            abs_i(t as int) <= 16 * ONE,
    {
        if wl2 - c == 0 {
            0
        } else {
            proof {
                lemma_fx_mul_bound(b as int, wl2 as int, 262144, 0x1000_0000_0000);
                lemma_div_tz_abs(
                    fx_mul(b as int, wl2 as int) * (SCALE as int),
                    wl2 as int - c as int,
                );
                lemma_div_pos_is_pos(
                    abs_i(fx_mul(b as int, wl2 as int) * (SCALE as int)),
                    abs_i(wl2 as int - c as int),
                );
                lemma_div_nonincreasing(
                    abs_i(fx_mul(b as int, wl2 as int) * (SCALE as int)),
                    abs_i(wl2 as int - c as int),
                );
            }
            let raw: i64 = div_fx(mul_fx(b, wl2), wl2 - c);
            let lim: i64 = 16 * ONE;
            if raw < -lim {
                -lim
            } else if raw > lim {
                lim
            } else {
                raw
            }
        }
    }

    /// Scatter through the glass: refract when Snell admits it and a
    /// Fresnel draw passes, else reflect; nothing is absorbed.
    pub fn scatter(&self, rng: &mut TracerRng, r_in: Ray, rec: &HitRecord) -> (res: ScatterResult)
        requires
            dielectric_ok(*self),
            0 <= r_in.wl <= 0x1000_0000,
            hit_ok(*rec),
            ray_wf(r_in),
        ensures
            res.emittance == 0,
            res.reflection matches Some((att, ray)) && att == ONE && ray.origin == rec.p
                && ray.wl == r_in.wl && ray.ti == r_in.ti && ray_wf(ray) && dielectric_dir(
                ray.direction,
                r_in.direction,
                rec.normal,
                *self,
                r_in.wl as int,
            ),
    {
        let ref_idx: i64 = self.refractive_index(r_in.wl);
        let ref_idx: i64 = if ref_idx > 8 * ONE {
            8 * ONE
        } else {
            ref_idx
        };
        let d_dot_n: i64 = {
            proof {
                lemma_abs_mul_le(r_in.direction.x as int, rec.normal.x as int, CMAX as int, NMAX as int);
                lemma_abs_mul_le(r_in.direction.y as int, rec.normal.y as int, CMAX as int, NMAX as int);
                lemma_abs_mul_le(r_in.direction.z as int, rec.normal.z as int, CMAX as int, NMAX as int);
                lemma_div_tz_abs(
                    r_in.direction.x * rec.normal.x + r_in.direction.y * rec.normal.y
                        + r_in.direction.z * rec.normal.z,
                    SCALE as int,
                );
                lemma_div_pos_is_pos(
                    abs_i(
                        r_in.direction.x * rec.normal.x + r_in.direction.y * rec.normal.y
                            + r_in.direction.z * rec.normal.z,
                    ),
                    SCALE as int,
                );
                lemma_div_is_ordered(
                    abs_i(
                        r_in.direction.x * rec.normal.x + r_in.direction.y * rec.normal.y
                            + r_in.direction.z * rec.normal.z,
                    ),
                    3 * (CMAX as int) * (NMAX as int),
                    SCALE as int,
                );
            }
            let wide: i128 = (r_in.direction.x as i128) * (rec.normal.x as i128)
                + (r_in.direction.y as i128) * (rec.normal.y as i128) + (r_in.direction.z as i128)
                * (rec.normal.z as i128);
            crate::fixed::div_trunc_i128(wide, SCALE as i128) as i64
        };
        proof {
            assert(ref_idx as int == diel_index(*self, r_in.wl as int));
        }
        let uv_opt = unit_of(r_in.direction);
        let reflected = reflect(r_in.direction, rec.normal);
        let dir: Vec3 = match uv_opt {
            None => take_dir(reflected, rec.normal),
            Some(uv) => {
                proof {
                    assert(uv == crate::primitive::unit_vec_spec(r_in.direction));
                }
                let exiting: bool = d_dot_n > 0;
                let outward: Vec3 = if exiting {
                    Vec3 { x: -rec.normal.x, y: -rec.normal.y, z: -rec.normal.z }
                } else {
                    rec.normal
                };
                let ratio: i64 = if exiting {
                    ref_idx
                } else {
                    if ref_idx == 0 {
                        8 * ONE
                    } else {
                        proof {
                            lemma_div_tz_abs((ONE as int) * (SCALE as int), ref_idx as int);
                            lemma_div_pos_is_pos(0x1_0000_0000, abs_i(ref_idx as int));
                            lemma_div_nonincreasing(0x1_0000_0000, abs_i(ref_idx as int));
                        }
                        let inv: i64 = div_fx(ONE, ref_idx);
                        if inv > 8 * ONE {
                            8 * ONE
                        } else {
                            inv
                        }
                    }
                };
                let cos_raw: i64 = {
                    let udn: i64 = {
                        proof {
                            lemma_abs_mul_le(uv.x as int, rec.normal.x as int, 3 * ONE, NMAX as int);
                            lemma_abs_mul_le(uv.y as int, rec.normal.y as int, 3 * ONE, NMAX as int);
                            lemma_abs_mul_le(uv.z as int, rec.normal.z as int, 3 * ONE, NMAX as int);
                            lemma_div_tz_abs(
                                uv.x * rec.normal.x + uv.y * rec.normal.y + uv.z * rec.normal.z,
                                SCALE as int,
                            );
                            lemma_div_pos_is_pos(
                                abs_i(
                                    uv.x * rec.normal.x + uv.y * rec.normal.y + uv.z
                                        * rec.normal.z,
                                ),
                                SCALE as int,
                            );
                            lemma_div_is_ordered(
                                abs_i(
                                    uv.x * rec.normal.x + uv.y * rec.normal.y + uv.z
                                        * rec.normal.z,
                                ),
                                9 * (ONE as int) * (NMAX as int),
                                SCALE as int,
                            );
                        }
                        let wide: i128 = (uv.x as i128) * (rec.normal.x as i128) + (uv.y as i128)
                            * (rec.normal.y as i128) + (uv.z as i128) * (rec.normal.z as i128);
                        crate::fixed::div_trunc_i128(wide, SCALE as i128) as i64
                    };
                    if exiting {
                        proof {
                            lemma_fx_mul_bound(ref_idx as int, udn as int, 524288, 0x900_0000_0000);
                        }
                        mul_fx(ref_idx, udn)
                    } else {
                        -udn
                    }
                };
                let cosine: i64 = if cos_raw > 4 * ONE {
                    4 * ONE
                } else if cos_raw < -(4 * ONE) {
                    -(4 * ONE)
                } else {
                    cos_raw
                };
                proof {
                    assert(exiting == diel_exiting(r_in.direction, rec.normal));
                    assert(outward == diel_outward(rec.normal, exiting));
                    assert(ratio as int == diel_ratio(*self, r_in.wl as int, exiting));
                }
                match refract(uv, outward, ratio) {
                    None => take_dir(reflected, rec.normal),
                    Some(refr) => {
                        let draw: i64 = rng.next_unit();
                        if draw < schlick(cosine, ref_idx) {
                            take_dir(reflected, rec.normal)
                        } else {
                            take_dir(refr, rec.normal)
                        }
                    },
                }
            },
        };
        let ray = Ray::new(rec.p, dir, r_in.wl, r_in.ti);
        ScatterResult { emittance: 0, reflection: Some((ONE, ray)) }
    }
}

pub open spec fn max_0(a: int) -> int {
    if a < 0 {
        0
    } else {
        a
    }
}

/// A surface material: one of the closed set of scattering models.
#[derive(Clone, Copy, PartialEq, Eq, Structural, Debug)]
pub enum Material {
    Lambertian(Lambertian),
    Metal(Metal),
    Dielectric(Dielectric),
    DiffuseLight(DiffuseLight),
}

/// Whether a material's parameters are in range.
pub open spec fn material_ok(m: Material) -> bool {
    match m {
        Material::Lambertian(l) => rgb_ok(l.albedo),
        Material::Metal(mt) => rgb_ok(mt.albedo) && 0 <= mt.fuzz <= ONE,
        Material::Dielectric(d) => dielectric_ok(d),
        Material::DiffuseLight(dl) => rgb_ok(dl.light),
    }
}

impl Material {
    /// Dispatch to the variant's scatter rule. Every outcome emits the
    /// variant's emittance exactly; a scattered ray starts at the hit
    /// point and keeps the wavelength and time.
    pub fn scatter(&self, rng: &mut TracerRng, r_in: Ray, rec: &HitRecord) -> (res: ScatterResult)
        requires
            material_ok(*self),
            0 <= r_in.wl <= 0x1000_0000,
            hit_ok(*rec),
            ray_wf(r_in),
        ensures
            res.emittance == material_emittance(*self, r_in.wl as int),
            res.reflection is Some <==> !(self is DiffuseLight),
            res.reflection matches Some((att, ray)) ==> att == material_attenuation(
                *self,
                r_in.wl as int,
            ) && ray.origin == rec.p && ray.wl == r_in.wl && ray.ti == r_in.ti && ray_wf(ray),
    {
        match self {
            Material::Lambertian(l) => l.scatter(rng, r_in, rec),
            Material::Metal(m) => m.scatter(rng, r_in, rec),
            Material::Dielectric(d) => d.scatter(rng, r_in, rec),
            Material::DiffuseLight(dl) => dl.scatter(r_in),
        }
    }
}

/// What a material adds to the path radiance at a wavelength.
pub open spec fn material_emittance(m: Material, wl: int) -> int {
    match m {
        Material::DiffuseLight(dl) => smits_bin(dl.light, bin_index(wl)),
        _ => 0,
    }
}

/// The factor a material multiplies into the path attenuation.
pub open spec fn material_attenuation(m: Material, wl: int) -> int {
    match m {
        Material::Lambertian(l) => smits_bin(l.albedo, bin_index(wl)),
        Material::Metal(mt) => smits_bin(mt.albedo, bin_index(wl)),
        Material::Dielectric(_) => ONE as int,
        Material::DiffuseLight(_) => 0,
    }
}

} // verus!
