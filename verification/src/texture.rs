//! Textures map a surface coordinate to the material at that point.

use vstd::prelude::*;
use crate::fixed::{SCALE, ONE, abs_i, div_tz, fx_mul, mul_fx, div_trunc_i128, lemma_fx_mul_bound};
use crate::color::{Rgb, rgb_ok};
use crate::material::{Material, material_ok, Lambertian};

verus! {

/// Largest image dimension a texture admits.
pub const DIM_MAX: i64 = 0x8000;

/// An image-backed texture: linear-reflectance pixels in row-major
/// order, looked up by clamped texture coordinates.
#[derive(Clone, PartialEq, Eq, Debug)]
pub struct ImageTexture {
    pub width: usize,
    pub height: usize,
    pub pixels: Vec<Rgb>,
}

pub open spec fn image_ok(img: ImageTexture) -> bool {
    &&& 1 <= img.width <= DIM_MAX
    &&& 1 <= img.height <= DIM_MAX
    &&& img.pixels@.len() == img.width * img.height
    &&& forall|i: int| 0 <= i < img.pixels@.len() ==> rgb_ok(#[trigger] img.pixels@[i])
}

/// The column a `u` coordinate falls into, clamped to the image.
pub open spec fn tex_col(u: int, w: int) -> int {
    let i = div_tz(fx_mul(u, w * (ONE as int)), ONE as int);
    if i < 0 {
        0
    } else if i >= w {
        w - 1
    } else {
        i
    }
}

/// The row a `v` coordinate falls into: `v` grows upward while rows
/// grow downward, and a small bias keeps the seam on the lower row.
pub open spec fn tex_row(v: int, h: int) -> int {
    let j = div_tz(fx_mul((ONE as int) - v, h * (ONE as int)) - 66, ONE as int);
    if j < 0 {
        0
    } else if j >= h {
        h - 1
    } else {
        j
    }
}

impl ImageTexture {
    pub fn new(width: usize, height: usize, pixels: Vec<Rgb>) -> (img: ImageTexture)
        requires
            1 <= width <= DIM_MAX,
            1 <= height <= DIM_MAX,
            pixels@.len() == width * height,
            forall|i: int| 0 <= i < pixels@.len() ==> rgb_ok(#[trigger] pixels@[i]),
        ensures
            img.width == width,
            img.height == height,
            img.pixels@ == pixels@,
            image_ok(img),
    {
        ImageTexture { width, height, pixels }
    }

    /// The material at a texture coordinate: a matte surface with the
    /// reflectance of the pixel the coordinate falls on.
    pub fn value(&self, u: i64, v: i64) -> (m: Material)
        requires
            image_ok(*self),
            0 <= u <= ONE,
            0 <= v <= ONE,
        ensures
            m == Material::Lambertian(
                Lambertian {
                    albedo: self.pixels@[tex_row(v as int, self.height as int) * self.width
                        + tex_col(u as int, self.width as int)],
                },
            ),
            material_ok(m),
    {
        proof {
            lemma_fx_mul_bound(u as int, self.width * (ONE as int), ONE as int, 0x8000_0000);
            lemma_fx_mul_bound(
                (ONE as int) - v,
                self.height * (ONE as int),
                ONE as int,
                0x8000_0000,
            );
            crate::fixed::lemma_div_tz_abs(
                fx_mul(u as int, self.width * (ONE as int)),
                ONE as int,
            );
            crate::fixed::lemma_div_tz_abs(
                fx_mul((ONE as int) - v, self.height * (ONE as int)) - 66,
                ONE as int,
            );
            vstd::arithmetic::div_mod::lemma_div_nonincreasing(
                abs_i(fx_mul(u as int, self.width * (ONE as int))),
                ONE as int,
            );
            vstd::arithmetic::div_mod::lemma_div_nonincreasing(
                abs_i(fx_mul((ONE as int) - v, self.height * (ONE as int)) - 66),
                ONE as int,
            );
            vstd::arithmetic::div_mod::lemma_div_pos_is_pos(
                abs_i(fx_mul(u as int, self.width * (ONE as int))),
                ONE as int,
            );
            vstd::arithmetic::div_mod::lemma_div_pos_is_pos(
                abs_i(fx_mul((ONE as int) - v, self.height * (ONE as int)) - 66),
                ONE as int,
            );
        }
        let wq: i64 = (self.width as i64) * (ONE);
        let hq: i64 = (self.height as i64) * (ONE);
        let iraw: i64 = div_trunc_i128(mul_fx(u, wq) as i128, ONE as i128) as i64;
        let jraw: i64 = div_trunc_i128((mul_fx(ONE - v, hq) - 66) as i128, ONE as i128) as i64;
        let i: usize = if iraw < 0 {
            0
        } else if iraw >= self.width as i64 {
            self.width - 1
        } else {
            iraw as usize
        };
        let j: usize = if jraw < 0 {
            0
        } else if jraw >= self.height as i64 {
            self.height - 1
        } else {
            jraw as usize
        };
        proof {
            assert(j * self.width + i < self.width * self.height && self.width * self.height
                <= 0x4000_0000) by (nonlinear_arith)
                requires
                    0 <= i < self.width,
                    0 <= j < self.height,
                    self.width <= 0x8000,
                    self.height <= 0x8000,
            {}
        }
        let idx: usize = j * self.width + i;
        let albedo: Rgb = self.pixels[idx];
        Material::Lambertian(Lambertian { albedo })
    }
}

/// A texture: a constant material everywhere, or an image lookup.
#[derive(Clone, PartialEq, Eq, Debug)]
pub enum Texture {
    Constant(Material),
    Image(ImageTexture),
}

pub open spec fn texture_ok(t: Texture) -> bool {
    match t {
        Texture::Constant(m) => material_ok(m),
        Texture::Image(img) => image_ok(img),
    }
}

/// The material a texture yields at a coordinate.
pub open spec fn texture_value(t: Texture, u: int, v: int) -> Material {
    match t {
        Texture::Constant(m) => m,
        Texture::Image(img) => Material::Lambertian(
            Lambertian {
                albedo: img.pixels@[tex_row(v, img.height as int) * img.width + tex_col(
                    u,
                    img.width as int,
                )],
            },
        ),
    }
}

/// Two textures that are interchangeable: both sound and yielding the
/// same material at every coordinate.
pub open spec fn texture_equiv(a: Texture, b: Texture) -> bool {
    &&& texture_ok(a)
    &&& texture_ok(b)
    &&& forall|u: int, v: int| #[trigger] texture_value(a, u, v) == texture_value(b, u, v)
}

impl Texture {
    /// An owned copy of the texture: as sound as the original and with
    /// the same material at every coordinate.
    pub fn duplicate(&self) -> (t: Texture)
        requires
            texture_ok(*self),
        ensures
            texture_equiv(t, *self),
            texture_ok(t),
            forall|u: int, v: int| texture_value(t, u, v) == texture_value(*self, u, v),
    {
        match self {
            Texture::Constant(m) => Texture::Constant(*m),
            Texture::Image(img) => {
                let mut pixels: Vec<Rgb> = Vec::new();
                let n = img.pixels.len();
                let mut k: usize = 0;
                while k < n
                    invariant
                        k <= n,
                        n == img.pixels@.len(),
                        pixels@.len() == k as int,
                        forall|i: int| 0 <= i < k as int ==> pixels@[i] == img.pixels@[i],
                    decreases n - k,
                {
                    pixels.push(img.pixels[k]);
                    k = k + 1;
                }
                proof {
                    assert(pixels@ =~= img.pixels@);
                }
                let out = Texture::Image(
                    ImageTexture { width: img.width, height: img.height, pixels },
                );
                proof {
                    assert forall|u: int, v: int|
                        texture_value(out, u, v) == texture_value(*self, u, v) by {}
                }
                out
            },
        }
    }

    /// The material at a coordinate.
    pub fn value(&self, u: i64, v: i64) -> (m: Material)
        requires
            texture_ok(*self),
            0 <= u <= ONE,
            0 <= v <= ONE,
        ensures
            m == texture_value(*self, u as int, v as int),
            material_ok(m),
    {
        match self {
            Texture::Constant(m) => *m,
            Texture::Image(img) => img.value(u, v),
        }
    }
}

} // verus!
