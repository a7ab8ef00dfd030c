//! The exact part of ray generation: where the centre of a pixel lies on the
//! viewport.
//!
//! The viewport is centred on the camera's axis and its pixels are square,
//! so pixel centres lie on a grid of half-pixel steps around the centre. A
//! camera turns a pair of steps into a point of the viewport by scaling both
//! with half the edge of a pixel; that scaling is not part of this module.

use vstd::prelude::*;
use crate::config::Resolution;

verus! {

/// The centre of pixel `(px, py)` seen from the centre of an image of the
/// given size, in half-pixel steps: steps to the right, then steps upward.
/// Row 0 is the top row, so the second number falls as `py` grows.
pub open spec fn steps_of(width: int, height: int, px: int, py: int) -> (int, int) {
    (2 * px + 1 - width, height - 1 - 2 * py)
}

/// The centre of pixel `(px, py)` seen from the centre of the image, in
/// half-pixel steps to the right and upward.
pub fn center_steps(resolution: &Resolution, px: u16, py: u16) -> (steps: (i32, i32))
    ensures
        (steps.0 as int, steps.1 as int) == steps_of(
            resolution@.width as int,
            resolution@.height as int,
            px as int,
            py as int,
        ),
{
    let width: i32 = resolution.width() as i32;
    let height: i32 = resolution.height() as i32;
    (2 * (px as i32) + 1 - width, height - 1 - 2 * (py as i32))
}

/// The pixel grid is centred: the pixel opposite to `(px, py)` lies at the
/// opposite steps.
pub proof fn lemma_steps_are_centred(width: int, height: int, px: int, py: int)
    ensures
        steps_of(width, height, width - 1 - px, height - 1 - py).0 == -steps_of(
            width,
            height,
            px,
            py,
        ).0,
        steps_of(width, height, width - 1 - px, height - 1 - py).1 == -steps_of(
            width,
            height,
            px,
            py,
        ).1,
{
}

/// The centre of a pixel of the image lies inside the viewport: strictly less
/// than `width` steps to either side and `height` steps up or down.
pub proof fn lemma_steps_within_viewport(width: int, height: int, px: int, py: int)
    requires
        0 <= px < width,
        0 <= py < height,
    ensures
        -width < steps_of(width, height, px, py).0 < width,
        -height < steps_of(width, height, px, py).1 < height,
{
}

/// Neighbouring pixels lie one pixel, two steps, apart: to the right along a
/// row, downward along a column.
pub proof fn lemma_steps_of_neighbours(width: int, height: int, px: int, py: int)
    ensures
        steps_of(width, height, px + 1, py).0 == steps_of(width, height, px, py).0 + 2,
        steps_of(width, height, px + 1, py).1 == steps_of(width, height, px, py).1,
        steps_of(width, height, px, py + 1).0 == steps_of(width, height, px, py).0,
        steps_of(width, height, px, py + 1).1 == steps_of(width, height, px, py).1 - 2,
{
}

/// Distinct pixels have distinct centres.
pub proof fn lemma_steps_are_distinct(width: int, height: int, px: int, py: int, qx: int, qy: int)
    requires
        steps_of(width, height, px, py) == steps_of(width, height, qx, qy),
    ensures
        px == qx,
        py == qy,
{
}

} // verus!
