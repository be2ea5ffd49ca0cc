//! Spectral colour: binned reflectance spectra and the Smits
//! decomposition from RGB reflectance to a ten-bin spectrum.

use vstd::prelude::*;
use crate::fixed::{
    SCALE, ONE, abs_i, div_tz, fx_mul, mul_fx, div_trunc_i128, lemma_div_tz_bounds,
    lemma_div_tz_abs, lemma_abs_mul_le, lemma_fx_mul_bound,
};

verus! {

/// First wavelength of the ten-bin spectra, in fixed-point nanometres.
pub const WL0_10: i64 = 24903680;

/// Bin width of the ten-bin spectra, in fixed-point nanometres.
pub const BIN_W_10: i64 = 2228224;

/// Largest reflectance magnitude a spectrum bin or an RGB channel may
/// carry; emitters exceed 1.0, so the cap is generous.
pub const REFL_MAX: i64 = 0x400_0000;

/// An RGB reflectance triple in fixed point.
#[derive(Clone, Copy, PartialEq, Eq, Structural, Debug)]
pub struct Rgb {
    pub red: i64,
    pub green: i64,
    pub blue: i64,
}

pub open spec fn rgb_ok(c: Rgb) -> bool {
    0 <= c.red <= REFL_MAX as int && 0 <= c.green <= REFL_MAX as int && 0 <= c.blue
        <= REFL_MAX as int
}

impl Rgb {
    pub fn new(red: i64, green: i64, blue: i64) -> (r: Rgb)
        ensures
            r.red == red && r.green == green && r.blue == blue,
    {
        Rgb { red, green, blue }
    }
}

/// A reflectance spectrum over ten fixed bins covering the visible
/// range; lookups outside clamp to the end bins.
#[derive(Clone, PartialEq, Eq, Debug)]
pub struct ColorSpectrum10 {
    pub bins: Vec<i64>,
}

pub open spec fn spectrum_wf(s: ColorSpectrum10) -> bool {
    s.bins@.len() == 10
}

/// The bin a wavelength falls into, clamped to the end bins.
pub open spec fn bin_index(wl: int) -> int {
    let i = div_tz(wl - WL0_10 as int, BIN_W_10 as int);
    if i < 0 {
        0
    } else if i >= 10 {
        9
    } else {
        i
    }
}

impl ColorSpectrum10 {
    pub fn new(bins: Vec<i64>) -> (s: ColorSpectrum10)
        requires
            bins@.len() == 10,
        ensures
            s.bins@ == bins@,
            spectrum_wf(s),
    {
        ColorSpectrum10 { bins }
    }

    /// Elementwise sum.
    pub fn add(&self, other: &ColorSpectrum10) -> (s: ColorSpectrum10)
        requires
            spectrum_wf(*self),
            spectrum_wf(*other),
            forall|i: int|
                0 <= i < 10 ==> i64::MIN <= #[trigger] self.bins@[i] + other.bins@[i] <= i64::MAX,
        ensures
            spectrum_wf(s),
            forall|i: int| 0 <= i < 10 ==> #[trigger] s.bins@[i] == self.bins@[i] + other.bins@[i],
    {
        let mut bins: Vec<i64> = Vec::new();
        let mut k: usize = 0;
        while k < 10
            invariant
                k <= 10,
                bins@.len() == k as int,
                spectrum_wf(*self),
                spectrum_wf(*other),
                forall|i: int|
                    0 <= i < 10 ==> i64::MIN <= #[trigger] self.bins@[i] + other.bins@[i] <= i64::MAX,
                forall|i: int| 0 <= i < k as int ==> #[trigger] bins@[i] == self.bins@[i] + other.bins@[i],
            decreases 10 - k,
        {
            bins.push(self.bins[k] + other.bins[k]);
            k = k + 1;
        }
        ColorSpectrum10 { bins }
    }

    /// Elementwise sum in place.
    pub fn add_assign(&mut self, other: &ColorSpectrum10)
        requires
            spectrum_wf(*old(self)),
            spectrum_wf(*other),
            forall|i: int|
                0 <= i < 10 ==> i64::MIN <= #[trigger] old(self).bins@[i] + other.bins@[i] <= i64::MAX,
        ensures
            spectrum_wf(*final(self)),
            forall|i: int|
                0 <= i < 10 ==> #[trigger] final(self).bins@[i] == old(self).bins@[i] + other.bins@[i],
    {
        let s = self.add(other);
        self.bins = s.bins;
    }

    /// Elementwise scaling by a fixed-point factor.
    pub fn scale(&self, k: i64) -> (s: ColorSpectrum10)
        requires
            spectrum_wf(*self),
            forall|i: int|
                0 <= i < 10 ==> i64::MIN <= fx_mul(k as int, #[trigger] self.bins@[i] as int)
                    <= i64::MAX,
        ensures
            spectrum_wf(s),
            forall|i: int| 0 <= i < 10 ==> s.bins@[i] == fx_mul(k as int, self.bins@[i] as int),
    {
        let mut bins: Vec<i64> = Vec::new();
        let mut j: usize = 0;
        while j < 10
            invariant
                j <= 10,
                bins@.len() == j as int,
                spectrum_wf(*self),
                forall|i: int|
                    0 <= i < 10 ==> i64::MIN <= fx_mul(k as int, #[trigger] self.bins@[i] as int)
                        <= i64::MAX,
                forall|i: int|
                    0 <= i < j as int ==> bins@[i] == fx_mul(k as int, self.bins@[i] as int),
            decreases 10 - j,
        {
            bins.push(mul_fx(k, self.bins[j]));
            j = j + 1;
        }
        ColorSpectrum10 { bins }
    }

    /// The reflectance at a wavelength: the value of the bin the
    /// wavelength falls into.
    pub fn reflect(&self, wl: i64) -> (r: i64)
        requires
            spectrum_wf(*self),
        ensures
            r == self.bins@[bin_index(wl as int)],
    {
        let raw: i128 = div_trunc_i128((wl as i128) - (WL0_10 as i128), BIN_W_10 as i128);
        proof {
            lemma_div_tz_abs(wl - WL0_10 as int, BIN_W_10 as int);
        }
        let idx: usize = if raw < 0 {
            0
        } else if raw >= 10 {
            9
        } else {
            raw as usize
        };
        self.bins[idx]
    }
}

pub open spec fn white_bin(i: int) -> int {
    if i == 0 { 65536 } else if i == 1 { 65536 } else if i == 2 { 65529 } else if i == 3 { 65490 }
    else if i == 4 { 65484 } else if i == 5 { 65523 } else { 65536 }
}

pub open spec fn cyan_bin(i: int) -> int {
    if i == 0 { 63635 } else if i == 1 { 61774 } else if i <= 5 { 65582 } else if i == 6 { 10250 }
    else { 0 }
}

pub open spec fn magenta_bin(i: int) -> int {
    if i == 0 { 65536 } else if i == 1 { 65536 } else if i == 2 { 63472 } else if i == 3 { 14608 }
    else if i == 4 { 0 } else if i == 5 { 3002 } else if i == 6 { 54847 } else if i == 9 { 65267 }
    else { 65536 }
}

pub open spec fn yellow_bin(i: int) -> int {
    if i == 0 { 7 } else if i == 1 { 0 } else if i == 2 { 7130 } else if i == 3 { 43588 } else if i
        == 4 { 65536 } else if i == 5 { 65536 } else if i == 6 { 65510 } else if i == 7 { 62823 }
    else if i == 8 { 63472 } else { 64487 }
}

pub open spec fn red_bin(i: int) -> int {
    if i == 0 { 6632 } else if i == 1 { 3375 } else if i <= 5 { 0 } else if i == 6 { 54559 }
    else { 66512 }
}

pub open spec fn green_bin(i: int) -> int {
    if i <= 1 { 0 } else if i == 2 { 1789 } else if i == 3 { 52016 } else if i == 4 { 65536 }
    else if i == 5 { 61722 } else if i == 6 { 11266 } else if i == 9 { 164 } else { 0 }
}

pub open spec fn blue_bin(i: int) -> int {
    if i <= 1 { 65536 } else if i == 2 { 58432 } else if i == 3 { 21778 } else if i == 4 { 0 }
    else if i == 5 { 0 } else if i == 6 { 20 } else if i == 7 { 2418 } else if i == 8 { 3165 }
    else { 3251 }
}

/// The Smits decomposition, one bin at a time: the smallest channel
/// scales the white spectrum, the middle one a secondary spectrum, and
/// the largest a pure spectrum.
pub open spec fn smits_bin(c: Rgb, i: int) -> int {
    let r = c.red as int;
    let g = c.green as int;
    let b = c.blue as int;
    if r <= g && r <= b {
        if g <= b {
            fx_mul(r, white_bin(i)) + fx_mul(g - r, cyan_bin(i)) + fx_mul(b - g, blue_bin(i))
        } else {
            fx_mul(r, white_bin(i)) + fx_mul(b - r, cyan_bin(i)) + fx_mul(g - b, green_bin(i))
        }
    } else if g <= r && g <= b {
        if r <= b {
            fx_mul(g, white_bin(i)) + fx_mul(r - g, magenta_bin(i)) + fx_mul(b - r, blue_bin(i))
        } else {
            fx_mul(g, white_bin(i)) + fx_mul(b - g, magenta_bin(i)) + fx_mul(r - b, red_bin(i))
        }
    } else {
        if r <= g {
            fx_mul(b, white_bin(i)) + fx_mul(r - b, yellow_bin(i)) + fx_mul(g - r, green_bin(i))
        } else {
            fx_mul(b, white_bin(i)) + fx_mul(g - b, yellow_bin(i)) + fx_mul(r - g, red_bin(i))
        }
    }
}

/// Every base-spectrum bin lies in a narrow known range.
proof fn lemma_base_ranges(i: int)
    requires
        0 <= i < 10,
    ensures
        65484 <= white_bin(i) <= 65536,
        0 <= cyan_bin(i) <= 65582,
        0 <= magenta_bin(i) <= 65536,
        0 <= yellow_bin(i) <= 65536,
        0 <= red_bin(i) <= 66512,
        0 <= green_bin(i) <= 65536,
        0 <= blue_bin(i) <= 65536,
{
}

/// For nonnegative inputs a fixed-point product is nonnegative and its
/// scaled value does not exceed the wide product.
proof fn lemma_fx_mul_pos_bounds(a: int, k: int)
    requires
        0 <= a,
        0 <= k,
    ensures
        0 <= fx_mul(a, k),
        (SCALE as int) * fx_mul(a, k) <= a * k,
        (SCALE as int) * fx_mul(a, k) > a * k - SCALE as int,
{
    assert(a * k >= 0) by (nonlinear_arith)
        requires
            0 <= a && 0 <= k,
    {}
    lemma_div_tz_bounds(a * k, SCALE as int);
}

/// One bin of the Smits combination of three nonnegative terms stays
/// between zero and the scaled sum of the wide products.
proof fn lemma_combo_bounds(a: int, ka: int, b: int, kb: int, c: int, kc: int)
    requires
        0 <= a && 0 <= ka,
        0 <= b && 0 <= kb,
        0 <= c && 0 <= kc,
    ensures
        0 <= fx_mul(a, ka) + fx_mul(b, kb) + fx_mul(c, kc),
        (SCALE as int) * (fx_mul(a, ka) + fx_mul(b, kb) + fx_mul(c, kc)) <= a * ka + b * kb + c
            * kc,
        (SCALE as int) * (fx_mul(a, ka) + fx_mul(b, kb) + fx_mul(c, kc)) > a * ka - SCALE as int,
{
    lemma_fx_mul_pos_bounds(a, ka);
    lemma_fx_mul_pos_bounds(b, kb);
    lemma_fx_mul_pos_bounds(c, kc);
}

/// A grey input decomposes to its own intensity, within one part in a
/// thousand: the white spectrum never strays further from one.
pub proof fn lemma_grey_reflect(c: Rgb, wl: int)
    requires
        c.red == c.green && c.green == c.blue,
        0 <= c.red <= ONE as int,
    ensures
        abs_i(smits_bin(c, bin_index(wl)) - c.red) <= 65,
{
    let i = bin_index(wl);
    lemma_bin_index_range(wl);
    lemma_base_ranges(i);
    let v = smits_bin(c, i);
    let r = c.red as int;
    lemma_fx_mul_pos_bounds(r, white_bin(i));
    lemma_fx_mul_pos_bounds(0, cyan_bin(i));
    lemma_fx_mul_pos_bounds(0, blue_bin(i));
    assert(fx_mul(0, cyan_bin(i)) == 0);
    assert(fx_mul(0, blue_bin(i)) == 0);
    assert(abs_i(fx_mul(r, white_bin(i)) - r) <= 65) by (nonlinear_arith)
        requires
            0 <= r <= 65536,
            65484 <= white_bin(i) <= 65536,
            0 <= fx_mul(r, white_bin(i)),
            65536 * fx_mul(r, white_bin(i)) <= r * white_bin(i),
            65536 * fx_mul(r, white_bin(i)) > r * white_bin(i) - 65536,
    {}
}

/// The clamped bin index is a valid index.
pub proof fn lemma_bin_index_range(wl: int)
    ensures
        0 <= bin_index(wl) < 10,
{
}

/// The decomposition never falls more than one part in a hundred below
/// the smallest channel, for any channel values up to one.
pub proof fn lemma_reflect_lower(c: Rgb, wl: int)
    requires
        0 <= c.red <= ONE as int,
        0 <= c.green <= ONE as int,
        0 <= c.blue <= ONE as int,
    ensures
        smits_bin(c, bin_index(wl)) >= min3(c.red as int, c.green as int, c.blue as int) - 655,
{
    let i = bin_index(wl);
    lemma_bin_index_range(wl);
    lemma_base_ranges(i);
    let r = c.red as int;
    let g = c.green as int;
    let b = c.blue as int;
    let mn = min3(r, g, b);
    if r <= g && r <= b {
        if g <= b {
            lemma_combo_bounds(r, white_bin(i), g - r, cyan_bin(i), b - g, blue_bin(i));
        } else {
            lemma_combo_bounds(r, white_bin(i), b - r, cyan_bin(i), g - b, green_bin(i));
        }
    } else if g <= r && g <= b {
        if r <= b {
            lemma_combo_bounds(g, white_bin(i), r - g, magenta_bin(i), b - r, blue_bin(i));
        } else {
            lemma_combo_bounds(g, white_bin(i), b - g, magenta_bin(i), r - b, red_bin(i));
        }
    } else {
        if r <= g {
            lemma_combo_bounds(b, white_bin(i), r - b, yellow_bin(i), g - r, green_bin(i));
        } else {
            lemma_combo_bounds(b, white_bin(i), g - b, yellow_bin(i), r - g, red_bin(i));
        }
    }
    assert(smits_bin(c, i) >= mn - 655) by (nonlinear_arith)
        requires
            0 <= r <= 65536 && 0 <= g <= 65536 && 0 <= b <= 65536,
            mn == min3(r, g, b),
            65484 <= white_bin(i) <= 65536,
            (SCALE as int) * smits_bin(c, i) > mn * white_bin(i) - SCALE as int,
            smits_bin(c, i) >= 0,
            SCALE == 65536,
    {}
}

pub open spec fn min3(a: int, b: int, c: int) -> int {
    if a <= b && a <= c {
        a
    } else if b <= c {
        b
    } else {
        c
    }
}

pub open spec fn max3(a: int, b: int, c: int) -> int {
    if a >= b && a >= c {
        a
    } else if b >= c {
        b
    } else {
        c
    }
}

/// Whenever red is strictly the largest channel, the pure red spectrum
/// scales with how far red exceeds the middle channel; its bins exceed
/// one by enough that a red surplus above roughly two thirds would push
/// a bin past the tolerance. Inputs below that surplus are covered.
pub open spec fn red_surplus_ok(c: Rgb) -> bool {
    (c.red > c.green && c.red > c.blue) ==> c.red as int - max_2(c.green as int, c.blue as int)
        <= 43900
}

pub open spec fn max_2(a: int, b: int) -> int {
    if a >= b {
        a
    } else {
        b
    }
}

/// The decomposition never rises more than one part in a hundred above
/// the largest channel, for channels up to one whose red surplus is
/// within bounds.
pub proof fn lemma_reflect_upper(c: Rgb, wl: int)
    requires
        0 <= c.red <= ONE as int,
        0 <= c.green <= ONE as int,
        0 <= c.blue <= ONE as int,
        red_surplus_ok(c),
    ensures
        smits_bin(c, bin_index(wl)) <= max3(c.red as int, c.green as int, c.blue as int) + 655,
{
    let i = bin_index(wl);
    lemma_bin_index_range(wl);
    lemma_base_ranges(i);
    let r = c.red as int;
    let g = c.green as int;
    let b = c.blue as int;
    let mx = max3(r, g, b);
    if r <= g && r <= b {
        if g <= b {
            lemma_combo_bounds(r, white_bin(i), g - r, cyan_bin(i), b - g, blue_bin(i));
            assert(smits_bin(c, i) <= mx + 655) by (nonlinear_arith)
                requires
                    0 <= r <= g <= b <= 65536,
                    mx == b,
                    white_bin(i) <= 65536,
                    cyan_bin(i) <= 65582,
                    blue_bin(i) <= 65536,
                    0 <= white_bin(i) && 0 <= cyan_bin(i) && 0 <= blue_bin(i),
                    65536 * smits_bin(c, i) <= r * white_bin(i) + (g - r) * cyan_bin(i) + (b - g)
                        * blue_bin(i),
            {}
        } else {
            lemma_combo_bounds(r, white_bin(i), b - r, cyan_bin(i), g - b, green_bin(i));
            assert(smits_bin(c, i) <= mx + 655) by (nonlinear_arith)
                requires
                    0 <= r <= b < g <= 65536,
                    mx == g,
                    white_bin(i) <= 65536,
                    cyan_bin(i) <= 65582,
                    green_bin(i) <= 65536,
                    0 <= white_bin(i) && 0 <= cyan_bin(i) && 0 <= green_bin(i),
                    65536 * smits_bin(c, i) <= r * white_bin(i) + (b - r) * cyan_bin(i) + (g - b)
                        * green_bin(i),
            {}
        }
    } else if g <= r && g <= b {
        if r <= b {
            lemma_combo_bounds(g, white_bin(i), r - g, magenta_bin(i), b - r, blue_bin(i));
            assert(smits_bin(c, i) <= mx + 655) by (nonlinear_arith)
                requires
                    0 <= g <= r <= b <= 65536,
                    g < r || g < b,
                    mx == b,
                    white_bin(i) <= 65536,
                    magenta_bin(i) <= 65536,
                    blue_bin(i) <= 65536,
                    0 <= white_bin(i) && 0 <= magenta_bin(i) && 0 <= blue_bin(i),
                    65536 * smits_bin(c, i) <= g * white_bin(i) + (r - g) * magenta_bin(i) + (b
                        - r) * blue_bin(i),
            {}
        } else {
            lemma_combo_bounds(g, white_bin(i), b - g, magenta_bin(i), r - b, red_bin(i));
            assert(smits_bin(c, i) <= mx + 655) by (nonlinear_arith)
                requires
                    0 <= g <= b < r <= 65536,
                    mx == r,
                    r - b <= 43900,
                    white_bin(i) <= 65536,
                    magenta_bin(i) <= 65536,
                    red_bin(i) <= 66512,
                    0 <= white_bin(i) && 0 <= magenta_bin(i) && 0 <= red_bin(i),
                    65536 * smits_bin(c, i) <= g * white_bin(i) + (b - g) * magenta_bin(i) + (r
                        - b) * red_bin(i),
            {}
        }
    } else {
        if r <= g {
            lemma_combo_bounds(b, white_bin(i), r - b, yellow_bin(i), g - r, green_bin(i));
            assert(smits_bin(c, i) <= mx + 655) by (nonlinear_arith)
                requires
                    0 <= b < r <= g <= 65536 || 0 <= b <= r <= g <= 65536,
                    b < r || b < g,
                    !(r <= g && r <= b) && !(g <= r && g <= b),
                    r <= g,
                    mx == g,
                    white_bin(i) <= 65536,
                    yellow_bin(i) <= 65536,
                    green_bin(i) <= 65536,
                    0 <= white_bin(i) && 0 <= yellow_bin(i) && 0 <= green_bin(i),
                    65536 * smits_bin(c, i) <= b * white_bin(i) + (r - b) * yellow_bin(i) + (g - r)
                        * green_bin(i),
            {}
        } else {
            lemma_combo_bounds(b, white_bin(i), g - b, yellow_bin(i), r - g, red_bin(i));
            assert(smits_bin(c, i) <= mx + 655) by (nonlinear_arith)
                requires
                    0 <= b && b <= g && g < r && r <= 65536,
                    mx == r,
                    r - g <= 43900,
                    white_bin(i) <= 65536,
                    yellow_bin(i) <= 65536,
                    red_bin(i) <= 66512,
                    0 <= white_bin(i) && 0 <= yellow_bin(i) && 0 <= red_bin(i),
                    65536 * smits_bin(c, i) <= b * white_bin(i) + (g - b) * yellow_bin(i) + (r - g)
                        * red_bin(i),
            {}
        }
    }
}

fn white_bin_at(i: usize) -> (r: i64)
    requires
        i < 10,
    ensures
        r == white_bin(i as int),
{
    if i == 0 { 65536 } else if i == 1 { 65536 } else if i == 2 { 65529 } else if i == 3 { 65490 }
    else if i == 4 { 65484 } else if i == 5 { 65523 } else { 65536 }
}

fn cyan_bin_at(i: usize) -> (r: i64)
    requires
        i < 10,
    ensures
        r == cyan_bin(i as int),
{
    if i == 0 { 63635 } else if i == 1 { 61774 } else if i <= 5 { 65582 } else if i == 6 { 10250 }
    else { 0 }
}

fn magenta_bin_at(i: usize) -> (r: i64)
    requires
        i < 10,
    ensures
        r == magenta_bin(i as int),
{
    if i == 0 { 65536 } else if i == 1 { 65536 } else if i == 2 { 63472 } else if i == 3 { 14608 }
    else if i == 4 { 0 } else if i == 5 { 3002 } else if i == 6 { 54847 } else if i == 9 { 65267 }
    else { 65536 }
}

fn yellow_bin_at(i: usize) -> (r: i64)
    requires
        i < 10,
    ensures
        r == yellow_bin(i as int),
{
    if i == 0 { 7 } else if i == 1 { 0 } else if i == 2 { 7130 } else if i == 3 { 43588 } else if i
        == 4 { 65536 } else if i == 5 { 65536 } else if i == 6 { 65510 } else if i == 7 { 62823 }
    else if i == 8 { 63472 } else { 64487 }
}

fn red_bin_at(i: usize) -> (r: i64)
    requires
        i < 10,
    ensures
        r == red_bin(i as int),
{
    if i == 0 { 6632 } else if i == 1 { 3375 } else if i <= 5 { 0 } else if i == 6 { 54559 }
    else { 66512 }
}

fn green_bin_at(i: usize) -> (r: i64)
    requires
        i < 10,
    ensures
        r == green_bin(i as int),
{
    if i <= 1 { 0 } else if i == 2 { 1789 } else if i == 3 { 52016 } else if i == 4 { 65536 }
    else if i == 5 { 61722 } else if i == 6 { 11266 } else if i == 9 { 164 } else { 0 }
}

fn blue_bin_at(i: usize) -> (r: i64)
    requires
        i < 10,
    ensures
        r == blue_bin(i as int),
{
    if i <= 1 { 65536 } else if i == 2 { 58432 } else if i == 3 { 21778 } else if i == 4 { 0 }
    else if i == 5 { 0 } else if i == 6 { 20 } else if i == 7 { 2418 } else if i == 8 { 3165 }
    else { 3251 }
}

/// Which of the seven base spectra a combination term draws from.
#[derive(Clone, Copy, PartialEq, Eq, Structural, Debug)]
enum Base {
    White,
    Cyan,
    Magenta,
    Yellow,
    Red,
    Green,
    Blue,
}

spec fn base_bin(w: Base, i: int) -> int {
    match w {
        Base::White => white_bin(i),
        Base::Cyan => cyan_bin(i),
        Base::Magenta => magenta_bin(i),
        Base::Yellow => yellow_bin(i),
        Base::Red => red_bin(i),
        Base::Green => green_bin(i),
        Base::Blue => blue_bin(i),
    }
}

fn base_bin_at(w: Base, i: usize) -> (r: i64)
    requires
        i < 10,
    ensures
        r == base_bin(w, i as int),
{
    match w {
        Base::White => white_bin_at(i),
        Base::Cyan => cyan_bin_at(i),
        Base::Magenta => magenta_bin_at(i),
        Base::Yellow => yellow_bin_at(i),
        Base::Red => red_bin_at(i),
        Base::Green => green_bin_at(i),
        Base::Blue => blue_bin_at(i),
    }
}

/// The scaled sum of three base spectra, one bin at a time.
fn combine(ca: i64, wa: Base, cb: i64, wb: Base, cc: i64, wc: Base) -> (s: ColorSpectrum10)
    requires
        0 <= ca <= REFL_MAX as int,
        0 <= cb <= REFL_MAX as int,
        0 <= cc <= REFL_MAX as int,
    ensures
        spectrum_wf(s),
        forall|i: int|
            0 <= i < 10 ==> s.bins@[i] == fx_mul(ca as int, base_bin(wa, i)) + fx_mul(
                cb as int,
                base_bin(wb, i),
            ) + fx_mul(cc as int, base_bin(wc, i)),
{
    let mut bins: Vec<i64> = Vec::new();
    let mut k: usize = 0;
    while k < 10
        invariant
            k <= 10,
            bins@.len() == k as int,
            0 <= ca <= REFL_MAX as int,
            0 <= cb <= REFL_MAX as int,
            0 <= cc <= REFL_MAX as int,
            forall|i: int|
                0 <= i < k as int ==> bins@[i] == fx_mul(ca as int, base_bin(wa, i)) + fx_mul(
                    cb as int,
                    base_bin(wb, i),
                ) + fx_mul(cc as int, base_bin(wc, i)),
        decreases 10 - k,
    {
        proof {
            lemma_base_ranges(k as int);
            lemma_fx_mul_bound(ca as int, base_bin(wa, k as int), REFL_MAX as int, 66512);
            lemma_fx_mul_bound(cb as int, base_bin(wb, k as int), REFL_MAX as int, 66512);
            lemma_fx_mul_bound(cc as int, base_bin(wc, k as int), REFL_MAX as int, 66512);
        }
        let va: i64 = mul_fx(ca, base_bin_at(wa, k));
        let vb: i64 = mul_fx(cb, base_bin_at(wb, k));
        let vc: i64 = mul_fx(cc, base_bin_at(wc, k));
        bins.push(va + vb + vc);
        k = k + 1;
    }
    ColorSpectrum10 { bins }
}

/// The Smits decomposition: combine the base spectra according to the
/// sorted order of the channels.
pub fn rgb_to_spectrum(c: Rgb) -> (s: ColorSpectrum10)
    requires
        rgb_ok(c),
    ensures
        spectrum_wf(s),
        forall|i: int| 0 <= i < 10 ==> s.bins@[i] == smits_bin(c, i),
{
    let Rgb { red, green, blue } = c;
    if red <= green && red <= blue {
        if green <= blue {
            combine(red, Base::White, green - red, Base::Cyan, blue - green, Base::Blue)
        } else {
            combine(red, Base::White, blue - red, Base::Cyan, green - blue, Base::Green)
        }
    } else if green <= red && green <= blue {
        if red <= blue {
            combine(green, Base::White, red - green, Base::Magenta, blue - red, Base::Blue)
        } else {
            combine(green, Base::White, blue - green, Base::Magenta, red - blue, Base::Red)
        }
    } else {
        if red <= green {
            combine(blue, Base::White, red - blue, Base::Yellow, green - red, Base::Green)
        } else {
            combine(blue, Base::White, green - blue, Base::Yellow, red - green, Base::Red)
        }
    }
}

impl Rgb {
    /// The reflectance of an RGB surface at one wavelength: decompose to
    /// a spectrum, then look the bin up.
    pub fn reflect(&self, wl: i64) -> (r: i64)
        requires
            rgb_ok(*self),
        ensures
            r == smits_bin(*self, bin_index(wl as int)),
    {
        let s = rgb_to_spectrum(*self);
        proof {
            lemma_bin_index_range(wl as int);
        }
        s.reflect(wl)
    }
}

} // verus!
