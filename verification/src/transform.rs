//! Pixel-space to normalized-device-coordinate transform.
//!
//! A sprite is a pixel-space rectangle: a position (its top-left corner, y
//! growing downward) and a positive size. The rasterizer consumes normalized
//! device coordinates, the [-1, 1] space with y growing upward. Each NDC
//! coordinate produced here is the exact rational `num / viewport_dimension`;
//! keeping the numerator and the viewport dimension apart makes the transform
//! exact, and a backend divides once when it fills its vertex uniforms.

use vstd::prelude::*;

verus! {

/// Pixel-space position of a sprite's top-left corner; y grows downward.
#[derive(Clone, Copy, PartialEq, Eq, Structural, Debug)]
pub struct Position {
    pub x: i32,
    pub y: i32,
}

/// Pixel-space extent of a sprite; both dimensions are positive for a
/// drawable sprite.
#[derive(Clone, Copy, PartialEq, Eq, Structural, Debug)]
pub struct Size {
    pub w: i32,
    pub h: i32,
}

/// One corner of a sprite's quad in normalized device coordinates.
///
/// The NDC x value is `x_num / viewport_width`, the NDC y value is
/// `y_num / viewport_height`, for the viewport the quad was computed against.
#[derive(Clone, Copy, PartialEq, Eq, Structural, Debug)]
pub struct NdcVertex {
    pub x_num: i64,
    pub y_num: i64,
}

/// The four corners of a sprite's quad, in the fixed triangle-fan order
/// bottom-left, bottom-right, top-right, top-left.
#[derive(Clone, Copy, PartialEq, Eq, Structural, Debug)]
pub struct Quad {
    pub bl: NdcVertex,
    pub br: NdcVertex,
    pub tr: NdcVertex,
    pub tl: NdcVertex,
}

/// Numerator of the NDC x value of pixel column `px`: `(px / vw - 1/2) * 2`
/// over the common denominator `vw`.
pub open spec fn ndc_x_num(px: int, vw: int) -> int {
    2 * px - vw
}

/// Numerator of the NDC y value of pixel row `py`: `(py / vh - 1/2) * -2`
/// over the common denominator `vh`. The negation flips pixel-down to
/// device-up.
pub open spec fn ndc_y_num(py: int, vh: int) -> int {
    vh - 2 * py
}

/// A viewport dimension pair a quad can be computed against: nonzero, and
/// within the 32-bit range the windowing layer reports.
pub open spec fn valid_viewport(vw: int, vh: int) -> bool {
    &&& 0 < vw <= 0xffff_ffff
    &&& 0 < vh <= 0xffff_ffff
}

/// A pixel rectangle the transform accepts: 32-bit position, positive size,
/// and a far edge that still fits in 32 bits.
pub open spec fn valid_rect(x: int, y: int, w: int, h: int) -> bool {
    &&& -0x8000_0000 <= x <= 0x7fff_ffff
    &&& -0x8000_0000 <= y <= 0x7fff_ffff
    &&& 0 < w
    &&& 0 < h
    &&& x + w <= 0x7fff_ffff
    &&& y + h <= 0x7fff_ffff
}

/// The quad of a pixel rectangle: the pixel corners (x, y+h), (x+w, y+h),
/// (x+w, y), (x, y), each normalized per axis.
pub open spec fn quad_spec(x: int, y: int, w: int, h: int, vw: int, vh: int) -> Quad {
    Quad {
        bl: NdcVertex { x_num: ndc_x_num(x, vw) as i64, y_num: ndc_y_num(y + h, vh) as i64 },
        br: NdcVertex { x_num: ndc_x_num(x + w, vw) as i64, y_num: ndc_y_num(y + h, vh) as i64 },
        tr: NdcVertex { x_num: ndc_x_num(x + w, vw) as i64, y_num: ndc_y_num(y, vh) as i64 },
        tl: NdcVertex { x_num: ndc_x_num(x, vw) as i64, y_num: ndc_y_num(y, vh) as i64 },
    }
}

/// Corner coordinates of the sprite rectangle at `(pos_x, pos_y)` of size
/// `width x height`, in normalized device space for a `viewport_w x
/// viewport_h` viewport, in triangle-fan order bottom-left, bottom-right,
/// top-right, top-left.
pub fn get_gl_coords(
    pos_x: i32,
    pos_y: i32,
    width: i32,
    height: i32,
    viewport_w: u32,
    viewport_h: u32,
) -> (r: Quad)
    requires
        valid_viewport(viewport_w as int, viewport_h as int),
        valid_rect(pos_x as int, pos_y as int, width as int, height as int),
    ensures
        r == quad_spec(
            pos_x as int,
            pos_y as int,
            width as int,
            height as int,
            viewport_w as int,
            viewport_h as int,
        ),
{
    let vw: i64 = viewport_w as i64;
    let vh: i64 = viewport_h as i64;
    let left: i64 = 2 * (pos_x as i64) - vw;
    let right: i64 = 2 * ((pos_x as i64) + (width as i64)) - vw;
    let top: i64 = vh - 2 * (pos_y as i64);
    let bottom: i64 = vh - 2 * ((pos_y as i64) + (height as i64));
    Quad {
        bl: NdcVertex { x_num: left, y_num: bottom },
        br: NdcVertex { x_num: right, y_num: bottom },
        tr: NdcVertex { x_num: right, y_num: top },
        tl: NdcVertex { x_num: left, y_num: top },
    }
}

/// Law: the quad of a sprite anchored at the pixel origin. Its left edge is
/// the NDC value -1, its right edge -1 + 2w/vw; under the pixel-down to
/// device-up flip its top edge is +1 and its bottom edge 1 - 2h/vh. Each
/// coordinate is stated as its numerator over the viewport dimension.
pub proof fn lemma_origin_quad(w: int, h: int, vw: int, vh: int)
    requires
        valid_viewport(vw, vh),
        valid_rect(0, 0, w, h),
    ensures
        quad_spec(0, 0, w, h, vw, vh) == (Quad {
            bl: NdcVertex { x_num: (-vw) as i64, y_num: (vh - 2 * h) as i64 },
            br: NdcVertex { x_num: (2 * w - vw) as i64, y_num: (vh - 2 * h) as i64 },
            tr: NdcVertex { x_num: (2 * w - vw) as i64, y_num: vh as i64 },
            tl: NdcVertex { x_num: (-vw) as i64, y_num: vh as i64 },
        }),
{
}

/// Law: increasing the pixel y of a sprite strictly decreases the NDC y
/// coordinate of all four corners, and leaves the x coordinates unchanged:
/// pixel y grows downward, device y grows upward.
pub proof fn lemma_vertical_flip(x: int, y1: int, y2: int, w: int, h: int, vw: int, vh: int)
    requires
        valid_viewport(vw, vh),
        valid_rect(x, y1, w, h),
        valid_rect(x, y2, w, h),
        y1 < y2,
    ensures
        quad_spec(x, y2, w, h, vw, vh).bl.y_num < quad_spec(x, y1, w, h, vw, vh).bl.y_num,
        quad_spec(x, y2, w, h, vw, vh).br.y_num < quad_spec(x, y1, w, h, vw, vh).br.y_num,
        quad_spec(x, y2, w, h, vw, vh).tr.y_num < quad_spec(x, y1, w, h, vw, vh).tr.y_num,
        quad_spec(x, y2, w, h, vw, vh).tl.y_num < quad_spec(x, y1, w, h, vw, vh).tl.y_num,
        quad_spec(x, y2, w, h, vw, vh).bl.x_num == quad_spec(x, y1, w, h, vw, vh).bl.x_num,
        quad_spec(x, y2, w, h, vw, vh).br.x_num == quad_spec(x, y1, w, h, vw, vh).br.x_num,
        quad_spec(x, y2, w, h, vw, vh).tr.x_num == quad_spec(x, y1, w, h, vw, vh).tr.x_num,
        quad_spec(x, y2, w, h, vw, vh).tl.x_num == quad_spec(x, y1, w, h, vw, vh).tl.x_num,
{
}

} // verus!
