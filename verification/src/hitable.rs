//! What a surface hit reports back to the integrator.

use vstd::prelude::*;
use crate::fixed::abs_i;
use crate::vec3::{Vec3, vec_ok, CMAX};
use crate::texture::{Texture, texture_ok};

verus! {

/// Largest normal-component magnitude a hit may report; normals are
/// near unit length, and the cap leaves scatter arithmetic room.
pub const NMAX: i64 = 0x1000_0000;

/// A surface hit: the ray parameter, the point, the unit-ish normal,
/// texture coordinates, and the surface's texture.
#[derive(Clone, Copy, Debug)]
pub struct HitRecord<'a> {
    pub t: i64,
    pub p: Vec3,
    pub u: i64,
    pub v: i64,
    pub normal: Vec3,
    pub texture: &'a Texture,
}

/// A hit record whose fields are in range and whose texture is sound.
pub open spec fn hit_ok(r: HitRecord) -> bool {
    &&& vec_ok(r.p)
    &&& abs_i(r.normal.x as int) <= NMAX as int
    &&& abs_i(r.normal.y as int) <= NMAX as int
    &&& abs_i(r.normal.z as int) <= NMAX as int
    &&& abs_i(r.t as int) <= CMAX as int
    &&& 0 <= r.u <= crate::fixed::ONE
    &&& 0 <= r.v <= crate::fixed::ONE
    &&& texture_ok(*r.texture)
}

} // verus!
