//! Sprite records: identity, placement and decoded image data.
//!
//! A sprite couples a stable random identity with its source path, its pixel
//! placement and the decoded pixels of its image. Decoding happens outside
//! this crate; the record here holds the plain decoded form, ready for a
//! backend to upload.

use vstd::prelude::*;

use crate::transform::{Position, Size};

verus! {

/// Decoded RGB image data: tightly packed rows of 3 bytes per pixel, as an
/// image decoder hands them out.
#[derive(Clone, PartialEq, Eq, Debug)]
pub struct ImageData {
    pub width: u32,
    pub height: u32,
    pub pixels: Vec<u8>,
}

impl ImageData {
    /// Well-formed: exactly 3 bytes for each of `width * height` pixels.
    pub open spec fn wf(self) -> bool {
        self.pixels@.len() == 3 * self.width * self.height
    }
}

/// A sprite: a stable identity, the path its image came from, its pixel
/// placement, and the decoded image a backend uploads.
#[derive(Clone, PartialEq, Eq, Debug)]
pub struct Sprite {
    pub id: u128,
    pub sprite_path: String,
    pub position: Position,
    pub size: Size,
    pub image: ImageData,
}

impl Sprite {
    /// Well-formed: a drawable size and consistent image data.
    pub open spec fn wf(self) -> bool {
        &&& self.size.w > 0
        &&& self.size.h > 0
        &&& self.image.wf()
    }

    /// A sprite over already-decoded image data, under a fresh random
    /// identity.
    pub fn new(sprite_path: String, position: Position, size: Size, image: ImageData) -> (r:
        Sprite)
        requires
            size.w > 0,
            size.h > 0,
            image.wf(),
        ensures
            r.wf(),
            r.sprite_path == sprite_path,
            r.position == position,
            r.size == size,
            r.image == image,
            (r.id >> 76) & 0xf == 4,
            (r.id >> 62) & 0x3 == 2,
    {
        Sprite { id: fresh_sprite_id(), sprite_path, position, size, image }
    }
}

/// Relies on uuid::Uuid::new_v4 and uuid::Uuid::as_u128: a fresh random
/// 128-bit identity. new_v4 masks the random value with
/// 0xFFFFFFFFFFFF4FFFBFFFFFFFFFFFFFFF and ors in 0x40008000000000000000, so
/// of every outcome only the fixed version and variant bits can be stated;
/// the rest is random and two calls may differ everywhere else.
#[verifier::external_body]
fn fresh_sprite_id() -> (r: u128)
    ensures
        (r >> 76) & 0xf == 4,
        (r >> 62) & 0x3 == 2,
{
    uuid::Uuid::new_v4().as_u128()
}

} // verus!
