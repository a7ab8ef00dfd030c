//! Cutting the image into square tiles of a fixed size, the unit of work
//! that is handed out when an image is rendered. Tiles in the last column
//! and the last row are clipped to the image. Every pixel lies in exactly
//! one tile, so tasks that each render one tile write to disjoint pixels.

use vstd::prelude::*;
use vstd::arithmetic::div_mod::lemma_fundamental_div_mod;
use vstd::arithmetic::div_mod::lemma_fundamental_div_mod_converse;
use vstd::arithmetic::div_mod::lemma_mod_bound;
use vstd::arithmetic::mul::lemma_mul_inequality;
use vstd::arithmetic::mul::lemma_mul_nonnegative;
use crate::config::ConfigError;
use crate::config::Resolution;

verus! {

/// A rectangle of pixels: columns `x .. x + width`, rows `y .. y + height`.
#[derive(Clone, Copy, Debug, PartialEq, Eq, Structural)]
pub struct Tile {
    pub x: u16,
    pub y: u16,
    pub width: u16,
    pub height: u16,
}

impl Tile {
    /// Pixel `(px, py)` lies in the tile.
    pub open spec fn contains(self, px: int, py: int) -> bool {
        &&& self.x <= px < self.x + self.width
        &&& self.y <= py < self.y + self.height
    }

    /// The number of pixels in the tile.
    pub open spec fn area(self) -> int {
        self.width * self.height
    }

    /// The tile lies inside an image of the given size.
    pub open spec fn within(self, width: int, height: int) -> bool {
        &&& self.x + self.width <= width
        &&& self.y + self.height <= height
    }

    /// The `k`-th pixel of the tile, counting along its rows from the top left.
    pub open spec fn pixel(self, k: int) -> (int, int) {
        (self.x + k % (self.width as int), self.y + k / (self.width as int))
    }

    /// Whether the tile lies inside an image of the given size.
    pub fn fits(&self, resolution: &Resolution) -> (b: bool)
        ensures
            b == self.within(resolution@.width as int, resolution@.height as int),
    {
        self.x as u32 + self.width as u32 <= resolution.width() as u32 && self.y as u32
            + self.height as u32 <= resolution.height() as u32
    }

    /// Whether pixel `(px, py)` lies in the tile.
    pub fn holds(&self, px: u16, py: u16) -> (b: bool)
        ensures
            b == self.contains(px as int, py as int),
    {
        let x0: u32 = self.x as u32;
        let y0: u32 = self.y as u32;
        let x1: u32 = x0 + self.width as u32;
        let y1: u32 = y0 + self.height as u32;
        x0 <= px as u32 && (px as u32) < x1 && y0 <= py as u32 && (py as u32) < y1
    }

    /// The number of pixels in the tile.
    pub fn pixel_count(&self) -> (n: u32)
        ensures
            n == self.area(),
    {
        let w: u32 = self.width as u32;
        let h: u32 = self.height as u32;
        assert(w * h <= 0xffff * 0xffff) by (nonlinear_arith)
            requires
                w <= 0xffff,
                h <= 0xffff,
        ;
        w * h
    }
}

/// What a `TileGrid` stands for: the image size and the edge of a full tile.
pub struct TileGridView {
    pub width: nat,
    pub height: nat,
    pub tile_size: nat,
}

impl TileGridView {
    /// The number of tiles side by side: the least number that spans the width.
    pub open spec fn columns(self) -> int {
        (self.width + self.tile_size - 1) / (self.tile_size as int)
    }

    /// The number of tiles above one another.
    pub open spec fn rows(self) -> int {
        (self.height + self.tile_size - 1) / (self.tile_size as int)
    }

    /// The number of tiles.
    pub open spec fn count(self) -> int {
        self.columns() * self.rows()
    }

    /// The tile with the given index. Tiles are numbered along the rows of
    /// the grid, from the top left.
    pub open spec fn tile(self, index: int) -> Tile {
        let x = (index % self.columns()) * self.tile_size;
        let y = (index / self.columns()) * self.tile_size;
        Tile {
            x: x as u16,
            y: y as u16,
            width: (if self.width - x < self.tile_size {
                self.width - x
            } else {
                self.tile_size as int
            }) as u16,
            height: (if self.height - y < self.tile_size {
                self.height - y
            } else {
                self.tile_size as int
            }) as u16,
        }
    }

    /// The index of the tile that holds pixel `(px, py)`.
    pub open spec fn index_of(self, px: int, py: int) -> int {
        (py / (self.tile_size as int)) * self.columns() + px / (self.tile_size as int)
    }

    /// Image and tiles have an extent, and each fits sixteen bits.
    pub open spec fn wf(self) -> bool {
        &&& 0 < self.width <= u16::MAX
        &&& 0 < self.height <= u16::MAX
        &&& 0 < self.tile_size <= u16::MAX
    }
}

/// The number of tiles of size `t` that span `n` pixels is at least one, and
/// the last of them starts inside the span.
pub proof fn lemma_span(n: int, t: int)
    requires
        0 < n,
        0 < t,
    ensures
        0 < (n + t - 1) / t <= n,
        ((n + t - 1) / t - 1) * t < n <= ((n + t - 1) / t) * t,
{
    let c = (n + t - 1) / t;
    let r = (n + t - 1) % t;
    lemma_fundamental_div_mod(n + t - 1, t);
    lemma_mod_bound(n + t - 1, t);
    assert(t * c == c * t) by (nonlinear_arith);
    assert((c - 1) * t == c * t - t) by (nonlinear_arith);
    assert(0 < c) by {
        if c <= 0 {
            lemma_mul_inequality(c, 0, t);
        }
    }
    assert(c - 1 <= (c - 1) * t) by {
        lemma_mul_inequality(1, t, c - 1);
        assert(1 * (c - 1) == c - 1);
        assert(t * (c - 1) == (c - 1) * t) by (nonlinear_arith);
    }
}

/// Splitting an index into a column and a row of a grid with `c` columns.
pub proof fn lemma_cell(index: int, c: int, r: int)
    requires
        0 <= index < c * r,
        0 < c,
    ensures
        0 <= index % c < c,
        0 <= index / c < r,
        index == (index / c) * c + index % c,
{
    lemma_fundamental_div_mod(index, c);
    lemma_mod_bound(index, c);
    let q = index / c;
    assert(c * q == q * c) by (nonlinear_arith);
    assert(0 <= q) by {
        if q < 0 {
            lemma_mul_inequality(q, -1, c);
        }
    }
    assert(q < r) by {
        if q >= r {
            lemma_mul_inequality(r, q, c);
            assert(r * c == c * r) by (nonlinear_arith);
        }
    }
}

/// A position `p` in a span of `n` pixels lies in the tile numbered `p / t`:
/// that tile exists, starts at or before `p`, and ends after it.
pub proof fn lemma_position(p: int, n: int, t: int)
    requires
        0 <= p < n,
        0 < t,
    ensures
        0 <= p / t < (n + t - 1) / t,
        (p / t) * t <= p < (p / t) * t + t,
{
    lemma_span(n, t);
    let q = p / t;
    let c = (n + t - 1) / t;
    lemma_fundamental_div_mod(p, t);
    lemma_mod_bound(p, t);
    assert(q * t == t * q) by (nonlinear_arith);
    assert(0 <= q) by {
        if q < 0 {
            lemma_mul_inequality(q, -1, t);
        }
    }
    assert(q < c) by {
        if q >= c {
            lemma_mul_inequality(c, q, t);
        }
    }
}

/// A position between the start of tile `q` and the start of the next is in tile `q`.
pub proof fn lemma_position_unique(p: int, q: int, t: int)
    requires
        0 < t,
        q * t <= p < q * t + t,
    ensures
        p / t == q,
{
    lemma_fundamental_div_mod_converse(p, t, q, p - q * t);
}

/// Every tile of the grid is a non-empty rectangle inside the image, no
/// larger than a full tile, that starts at a multiple of the tile size.
pub proof fn lemma_tile_within_image(grid: TileGridView, index: int)
    requires
        grid.wf(),
        0 <= index < grid.count(),
    ensures
        grid.tile(index).within(grid.width as int, grid.height as int),
        0 < grid.tile(index).width <= grid.tile_size,
        0 < grid.tile(index).height <= grid.tile_size,
        grid.tile(index).x == (index % grid.columns()) * grid.tile_size,
        grid.tile(index).y == (index / grid.columns()) * grid.tile_size,
{
    let t = grid.tile_size as int;
    lemma_span(grid.width as int, t);
    lemma_span(grid.height as int, t);
    lemma_cell(index, grid.columns(), grid.rows());
    let col = index % grid.columns();
    let row = index / grid.columns();
    lemma_mul_nonnegative(col, t);
    lemma_mul_inequality(col, grid.columns() - 1, t);
    lemma_mul_nonnegative(row, t);
    lemma_mul_inequality(row, grid.rows() - 1, t);
}

/// Every pixel of the image lies in the tile that `index_of` names.
pub proof fn lemma_pixel_in_its_tile(grid: TileGridView, px: int, py: int)
    requires
        grid.wf(),
        0 <= px < grid.width,
        0 <= py < grid.height,
    ensures
        0 <= grid.index_of(px, py) < grid.count(),
        grid.tile(grid.index_of(px, py)).contains(px, py),
{
    let t = grid.tile_size as int;
    let c = grid.columns();
    let r = grid.rows();
    lemma_position(px, grid.width as int, t);
    lemma_position(py, grid.height as int, t);
    let col = px / t;
    let row = py / t;
    let index = row * c + col;
    lemma_mul_nonnegative(row, c);
    lemma_mul_inequality(row + 1, r, c);
    assert((row + 1) * c == row * c + c) by (nonlinear_arith);
    assert(r * c == c * r) by (nonlinear_arith);
    lemma_fundamental_div_mod_converse(index, c, row, col);
    lemma_tile_within_image(grid, index);
}

/// No pixel lies in two tiles: a tile that holds a pixel is the one that
/// `index_of` names.
pub proof fn lemma_tiles_are_disjoint(grid: TileGridView, index: int, px: int, py: int)
    requires
        grid.wf(),
        0 <= index < grid.count(),
        grid.tile(index).contains(px, py),
    ensures
        index == grid.index_of(px, py),
        0 <= px < grid.width,
        0 <= py < grid.height,
{
    let t = grid.tile_size as int;
    let c = grid.columns();
    lemma_tile_within_image(grid, index);
    lemma_span(grid.width as int, t);
    lemma_cell(index, c, grid.rows());
    lemma_position_unique(px, index % c, t);
    lemma_position_unique(py, index / c, t);
}

/// The image cut into tiles.
#[derive(Clone, Copy, Debug, PartialEq, Eq, Structural)]
pub struct TileGrid {
    resolution: Resolution,
    tile_size: u16,
}

impl View for TileGrid {
    type V = TileGridView;

    closed spec fn view(&self) -> TileGridView {
        TileGridView {
            width: self.resolution@.width,
            height: self.resolution@.height,
            tile_size: self.tile_size as nat,
        }
    }
}

impl TileGrid {
    #[verifier::type_invariant]
    pub open spec fn wf(self) -> bool {
        self@.wf()
    }

    /// Cuts an image of the given size into tiles of the given size. A tile
    /// size of zero is rejected.
    pub fn new(resolution: Resolution, tile_size: u16) -> (r: Result<TileGrid, ConfigError>)
        ensures
            tile_size == 0 ==> r == Err::<TileGrid, ConfigError>(ConfigError::ZeroTileSize),
            tile_size > 0 ==> r is Ok && r->Ok_0@ == (TileGridView {
                width: resolution@.width,
                height: resolution@.height,
                tile_size: tile_size as nat,
            }),
    {
        if tile_size == 0 {
            Err(ConfigError::ZeroTileSize)
        } else {
            proof {
                use_type_invariant(&resolution);
            }
            Ok(TileGrid { resolution, tile_size })
        }
    }

    /// The number of tiles side by side.
    pub fn columns(&self) -> (c: u32)
        ensures
            c == self@.columns(),
            0 < c <= self@.width,
    {
        proof {
            use_type_invariant(self);
            lemma_span(self@.width as int, self@.tile_size as int);
        }
        (self.resolution.width() as u32 + self.tile_size as u32 - 1) / (self.tile_size as u32)
    }

    /// The number of tiles above one another.
    pub fn rows(&self) -> (r: u32)
        ensures
            r == self@.rows(),
            0 < r <= self@.height,
    {
        proof {
            use_type_invariant(self);
            lemma_span(self@.height as int, self@.tile_size as int);
        }
        (self.resolution.height() as u32 + self.tile_size as u32 - 1) / (self.tile_size as u32)
    }

    /// The number of tiles.
    pub fn tile_count(&self) -> (n: u32)
        ensures
            n == self@.count(),
            n > 0,
    {
        let c: u32 = self.columns();
        let r: u32 = self.rows();
        proof {
            use_type_invariant(self);
            assert(0 < c * r <= 0xffff * 0xffff) by (nonlinear_arith)
                requires
                    0 < c <= 0xffff,
                    0 < r <= 0xffff,
            ;
        }
        c * r
    }

    /// The tile with the given index, or `None` where the grid has no such tile.
    pub fn tile(&self, index: u32) -> (t: Option<Tile>)
        ensures
            index < self@.count() ==> t == Some(self@.tile(index as int)),
            index >= self@.count() ==> t is None,
    {
        let count: u32 = self.tile_count();
        if index >= count {
            return None;
        }
        let c: u32 = self.columns();
        let size: u32 = self.tile_size as u32;
        let width: u32 = self.resolution.width() as u32;
        let height: u32 = self.resolution.height() as u32;
        proof {
            use_type_invariant(self);
            lemma_tile_within_image(self@, index as int);
            lemma_cell(index as int, self@.columns(), self@.rows());
        }
        let x: u32 = (index % c) * size;
        let y: u32 = (index / c) * size;
        let w: u32 = if width - x < size {
            width - x
        } else {
            size
        };
        let h: u32 = if height - y < size {
            height - y
        } else {
            size
        };
        Some(Tile { x: x as u16, y: y as u16, width: w as u16, height: h as u16 })
    }

    /// The index of the tile that holds pixel `(px, py)`, or `None` where
    /// the pixel lies outside the image.
    pub fn tile_of(&self, px: u16, py: u16) -> (i: Option<u32>)
        ensures
            (px < self@.width && py < self@.height) ==> i is Some && i->Some_0 == self@.index_of(
                px as int,
                py as int,
            ) && i->Some_0 < self@.count(),
            !(px < self@.width && py < self@.height) ==> i is None,
    {
        if px >= self.resolution.width() || py >= self.resolution.height() {
            return None;
        }
        let c: u32 = self.columns();
        let size: u32 = self.tile_size as u32;
        proof {
            use_type_invariant(self);
            lemma_pixel_in_its_tile(self@, px as int, py as int);
            lemma_position(py as int, self@.height as int, size as int);
            lemma_position(px as int, self@.width as int, size as int);
            let row = py as int / size as int;
            assert(0 <= row * c <= 0xffff * 0xffff) by (nonlinear_arith)
                requires
                    0 <= row < 0xffff,
                    0 < c <= 0xffff,
            ;
        }
        Some((py as u32 / size) * c + px as u32 / size)
    }

    /// All tiles, in the order of their indices.
    pub fn tiles(&self) -> (all: Vec<Tile>)
        ensures
            all@.len() == self@.count(),
            forall|i: int| 0 <= i < all@.len() ==> #[trigger] all@[i] == self@.tile(i),
    {
        let count: u32 = self.tile_count();
        let mut all: Vec<Tile> = Vec::new();
        let mut index: u32 = 0;
        while index < count
            invariant
                index <= count,
                count == self@.count(),
                all@.len() == index,
                forall|i: int| 0 <= i < all@.len() ==> #[trigger] all@[i] == self@.tile(i),
            decreases count - index,
        {
            let tile = self.tile(index).unwrap();
            all.push(tile);
            index = index + 1;
        }
        all
    }
}

} // verus!
