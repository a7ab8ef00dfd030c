//! The output slots of an image: pixel `(px, py)` of an image `width` pixels
//! wide is stored at slot `py * width + px`. Distinct pixels have distinct
//! slots, and the slots of an image fill `0 .. width * height` without a gap.

use vstd::prelude::*;
use vstd::arithmetic::div_mod::lemma_fundamental_div_mod_converse;
use vstd::arithmetic::mul::lemma_mul_inequality;
use vstd::arithmetic::mul::lemma_mul_nonnegative;
use crate::config::Resolution;
use crate::tiles::Tile;

verus! {

/// The slot of pixel `(px, py)` in an image `width` pixels wide.
pub open spec fn slot_of(width: int, px: int, py: int) -> int {
    py * width + px
}

/// The pixel that is stored at `slot` in an image `width` pixels wide.
pub open spec fn pixel_of(width: int, slot: int) -> (int, int) {
    (slot % width, slot / width)
}

/// The place of pixel `(px, py)` among the pixels of `tile`, counting along
/// the tile's rows from its top left.
pub open spec fn place_in_tile(tile: Tile, px: int, py: int) -> int {
    (py - tile.y) * tile.width + (px - tile.x)
}

/// The slot of a pixel of the image is a slot of the image.
pub proof fn lemma_slot_in_image(width: int, height: int, px: int, py: int)
    requires
        0 <= px < width,
        0 <= py < height,
    ensures
        0 <= slot_of(width, px, py) < width * height,
{
    lemma_mul_nonnegative(py, width);
    lemma_mul_inequality(py + 1, height, width);
    assert((py + 1) * width == py * width + width) by (nonlinear_arith);
    assert(height * width == width * height) by (nonlinear_arith);
}

/// A slot determines its pixel: `pixel_of` undoes `slot_of`.
pub proof fn lemma_pixel_of_slot(width: int, px: int, py: int)
    requires
        0 <= px < width,
    ensures
        pixel_of(width, slot_of(width, px, py)) == (px, py),
{
    lemma_fundamental_div_mod_converse(py * width + px, width, py, px);
}

/// Every slot of the image is the slot of one of its pixels: `slot_of` undoes `pixel_of`.
pub proof fn lemma_slot_of_pixel(width: int, height: int, slot: int)
    requires
        0 < width,
        0 <= slot < width * height,
    ensures
        0 <= pixel_of(width, slot).0 < width,
        0 <= pixel_of(width, slot).1 < height,
        slot_of(width, pixel_of(width, slot).0, pixel_of(width, slot).1) == slot,
{
    crate::tiles::lemma_cell(slot, width, height);
}

/// Two pixels that share a slot are the same pixel, so writes to the slots
/// of distinct pixels never collide.
pub proof fn lemma_slots_are_distinct(width: int, px: int, py: int, qx: int, qy: int)
    requires
        0 <= px < width,
        0 <= qx < width,
        slot_of(width, px, py) == slot_of(width, qx, qy),
    ensures
        px == qx,
        py == qy,
{
    lemma_pixel_of_slot(width, px, py);
    lemma_pixel_of_slot(width, qx, qy);
}

/// A pixel of a tile has a place among the tile's pixels, and the pixel at
/// that place is the pixel itself.
pub proof fn lemma_place_in_tile(tile: Tile, px: int, py: int)
    requires
        tile.contains(px, py),
    ensures
        0 <= place_in_tile(tile, px, py) < tile.area(),
        tile.pixel(place_in_tile(tile, px, py)) == (px, py),
{
    let w = tile.width as int;
    let h = tile.height as int;
    let dx = px - tile.x;
    let dy = py - tile.y;
    lemma_slot_in_image(w, h, dx, dy);
    lemma_pixel_of_slot(w, dx, dy);
}

/// The pixel at a place of a tile lies in the tile, at that place.
pub proof fn lemma_pixel_of_tile(tile: Tile, k: int)
    requires
        0 <= k < tile.area(),
    ensures
        tile.contains(tile.pixel(k).0, tile.pixel(k).1),
        place_in_tile(tile, tile.pixel(k).0, tile.pixel(k).1) == k,
{
    let w = tile.width as int;
    let h = tile.height as int;
    assert(w > 0) by {
        if w == 0 {
            assert(w * h == 0);
        }
    }
    crate::tiles::lemma_cell(k, w, h);
}

/// The number of pixels of the image.
pub fn pixel_count(resolution: &Resolution) -> (n: usize)
    ensures
        n == resolution@.width * resolution@.height,
        n > 0,
{
    let w: usize = resolution.width() as usize;
    let h: usize = resolution.height() as usize;
    proof {
        use_type_invariant(resolution);
        assert(0 < w * h <= 0xffff * 0xffff) by (nonlinear_arith)
            requires
                0 < w <= 0xffff,
                0 < h <= 0xffff,
        ;
    }
    w * h
}

/// The slot of pixel `(px, py)`, or `None` where the pixel lies outside the image.
pub fn slot(resolution: &Resolution, px: u16, py: u16) -> (s: Option<usize>)
    ensures
        (px < resolution@.width && py < resolution@.height) ==> s is Some && s->Some_0
            == slot_of(resolution@.width as int, px as int, py as int) && s->Some_0
            < resolution@.width * resolution@.height,
        !(px < resolution@.width && py < resolution@.height) ==> s is None,
{
    if px >= resolution.width() || py >= resolution.height() {
        return None;
    }
    let w: usize = resolution.width() as usize;
    proof {
        use_type_invariant(resolution);
        lemma_slot_in_image(
            resolution@.width as int,
            resolution@.height as int,
            px as int,
            py as int,
        );
        assert(resolution@.width * resolution@.height <= 0xffff * 0xffff) by (nonlinear_arith)
            requires
                0 < resolution@.width <= 0xffff,
                0 < resolution@.height <= 0xffff,
        ;
        assert(py * w >= 0) by (nonlinear_arith)
            requires
                py >= 0,
                w >= 0,
        ;
    }
    Some(py as usize * w + px as usize)
}

/// The pixel stored at `slot`, or `None` where the image has no such slot.
pub fn pixel_at(resolution: &Resolution, slot: usize) -> (p: Option<(u16, u16)>)
    ensures
        slot < resolution@.width * resolution@.height ==> p is Some && (
            p->Some_0.0 as int,
            p->Some_0.1 as int,
        ) == pixel_of(resolution@.width as int, slot as int) && p->Some_0.0 < resolution@.width
            && p->Some_0.1 < resolution@.height,
        slot >= resolution@.width * resolution@.height ==> p is None,
{
    let count: usize = pixel_count(resolution);
    if slot >= count {
        return None;
    }
    let w: usize = resolution.width() as usize;
    proof {
        use_type_invariant(resolution);
        lemma_slot_of_pixel(resolution@.width as int, resolution@.height as int, slot as int);
    }
    Some(((slot % w) as u16, (slot / w) as u16))
}

} // verus!
