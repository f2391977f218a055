//! How an image is cut into tiles.
//!
//! The image is covered by square tiles of 16 by 16 pixels, numbered row by
//! row from the top left; tiles on the right and bottom edge are cut off at
//! the image border. Each tile is an independent unit of work.

use vstd::arithmetic::div_mod::lemma_fundamental_div_mod;
use vstd::arithmetic::div_mod::lemma_fundamental_div_mod_converse_div;
use vstd::arithmetic::div_mod::lemma_fundamental_div_mod_converse_mod;
use vstd::arithmetic::div_mod::lemma_mod_bound;
use vstd::arithmetic::div_mod::lemma_multiply_divide_lt;
use vstd::prelude::*;

verus! {

/// Edge length of a full tile, in pixels.
pub const TILE_SIZE: u32 = 16;

/// A rectangle of pixels: columns `x0..x1` of rows `y0..y1`.
#[derive(Clone, Copy, Debug, PartialEq, Eq, Structural)]
pub struct Tile {
    pub x0: u32,
    pub y0: u32,
    pub x1: u32,
    pub y1: u32,
}

impl Tile {
    /// The pixel in column `i` of row `j` lies in this tile.
    pub open spec fn contains(self, i: int, j: int) -> bool {
        self.x0 <= i < self.x1 && self.y0 <= j < self.y1
    }

    /// Number of columns.
    pub open spec fn columns(self) -> int {
        self.x1 - self.x0
    }

    /// Number of rows.
    pub open spec fn rows(self) -> int {
        self.y1 - self.y0
    }

    /// The pixels of the tile as `(column, row)`, row by row from the top,
    /// each row from the left. A tile without columns or rows has none.
    pub open spec fn spec_pixels(self) -> Seq<(u32, u32)> {
        if self.columns() <= 0 || self.rows() <= 0 {
            Seq::empty()
        } else {
            Seq::new(
                (self.rows() * self.columns()) as nat,
                |k: int| ((self.x0 + k % self.columns()) as u32, (self.y0 + k / self.columns()) as u32),
            )
        }
    }

    /// The pixels of the tile as `(column, row)`, row by row from the top,
    /// each row from the left.
    pub fn pixels(&self) -> (list: Vec<(u32, u32)>)
        ensures
            list@ == self.spec_pixels(),
    {
        let mut list: Vec<(u32, u32)> = Vec::new();
        if self.x1 <= self.x0 || self.y1 <= self.y0 {
            return list;
        }
        let ghost columns = self.columns();
        let mut j: u32 = self.y0;
        while j < self.y1
            invariant
                self.x0 < self.x1,
                self.y0 <= j <= self.y1,
                columns == self.columns(),
                list@.len() == (j - self.y0) * columns,
                forall|k: int|
                    0 <= k < list@.len() ==> list@[k] == (
                        (self.x0 + k % columns) as u32,
                        (self.y0 + k / columns) as u32,
                    ),
            decreases self.y1 - j,
        {
            let mut i: u32 = self.x0;
            while i < self.x1
                invariant
                    self.x0 <= i <= self.x1,
                    self.y0 <= j < self.y1,
                    columns == self.columns(),
                    columns > 0,
                    list@.len() == (j - self.y0) * columns + (i - self.x0),
                    forall|k: int|
                        0 <= k < list@.len() ==> list@[k] == (
                            (self.x0 + k % columns) as u32,
                            (self.y0 + k / columns) as u32,
                        ),
                decreases self.x1 - i,
            {
                proof {
                    let k = list@.len() as int;
                    lemma_fundamental_div_mod_converse_div(k, columns, j - self.y0, i - self.x0);
                    lemma_fundamental_div_mod_converse_mod(k, columns, j - self.y0, i - self.x0);
                }
                list.push((i, j));
                i = i + 1;
            }
            proof {
                assert((j - self.y0) * columns + columns == (j + 1 - self.y0) * columns)
                    by (nonlinear_arith);
            }
            j = j + 1;
        }
        assert(list@ =~= self.spec_pixels());
        list
    }
}

/// Number of tiles needed to cover `extent` pixels along one axis.
pub open spec fn spec_tiles_along(extent: u32) -> int {
    (extent + 15) / 16
}

/// Number of tiles needed to cover `extent` pixels along one axis.
pub fn tiles_along(extent: u32) -> (n: u32)
    ensures
        n == spec_tiles_along(extent),
{
    let full: u32 = extent / TILE_SIZE;
    if extent % TILE_SIZE == 0 {
        full
    } else {
        full + 1
    }
}

/// Number of tiles that cover an image of `width` by `height` pixels.
pub open spec fn spec_tile_count(width: u32, height: u32) -> int {
    spec_tiles_along(width) * spec_tiles_along(height)
}

/// Number of tiles that cover an image of `width` by `height` pixels.
pub fn tile_count(width: u32, height: u32) -> (n: u64)
    ensures
        n == spec_tile_count(width, height),
{
    let across: u64 = tiles_along(width) as u64;
    let down: u64 = tiles_along(height) as u64;
    assert(across * down <= 0x1000_0000 * 0x1000_0000) by (nonlinear_arith)
        requires
            across <= 0x1000_0000,
            down <= 0x1000_0000,
    ;
    across * down
}

/// Number of pixels of an image of `width` by `height` pixels.
pub fn pixel_count(width: u32, height: u32) -> (n: u64)
    ensures
        n == width * height,
{
    assert(width * height <= 0xffff_ffff * 0xffff_ffff) by (nonlinear_arith)
        requires
            width <= 0xffff_ffff,
            height <= 0xffff_ffff,
    ;
    (width as u64) * (height as u64)
}

/// The smaller of `start + 16` and `limit`.
pub open spec fn tile_end(start: int, limit: int) -> int {
    if start + 16 <= limit {
        start + 16
    } else {
        limit
    }
}

/// Tile number `index` of an image of `width` by `height` pixels.
pub open spec fn spec_tile_at(index: int, width: u32, height: u32) -> Tile {
    let across = spec_tiles_along(width);
    let x0 = (index % across) * 16;
    let y0 = (index / across) * 16;
    Tile {
        x0: x0 as u32,
        y0: y0 as u32,
        x1: tile_end(x0, width as int) as u32,
        y1: tile_end(y0, height as int) as u32,
    }
}

/// Tile `index` starts inside the image.
pub proof fn lemma_tile_origin(index: int, width: u32, height: u32)
    requires
        0 <= index < spec_tile_count(width, height),
    ensures
        spec_tiles_along(width) > 0,
        0 <= index % spec_tiles_along(width) < spec_tiles_along(width),
        0 <= index / spec_tiles_along(width) < spec_tiles_along(height),
        0 <= (index % spec_tiles_along(width)) * 16 < width,
        0 <= (index / spec_tiles_along(width)) * 16 < height,
{
    let across = spec_tiles_along(width);
    let down = spec_tiles_along(height);
    assert(across > 0) by (nonlinear_arith)
        requires
            0 <= index < across * down,
            across >= 0,
    ;
    lemma_mod_bound(index, across);
    lemma_multiply_divide_lt(index, across, down);
    lemma_fundamental_div_mod(index, across);
    assert(0 <= index / across) by (nonlinear_arith)
        requires
            index == across * (index / across) + index % across,
            0 <= index,
            0 <= index % across < across,
    ;
}

/// Tile number `index` of an image of `width` by `height` pixels.
pub fn tile_at(index: u64, width: u32, height: u32) -> (tile: Tile)
    requires
        index < spec_tile_count(width, height),
    ensures
        tile == spec_tile_at(index as int, width, height),
{
    proof {
        lemma_tile_origin(index as int, width, height);
    }
    let across: u64 = tiles_along(width) as u64;
    let column: u64 = index % across;
    let row: u64 = index / across;
    let x0: u32 = (column * 16) as u32;
    let y0: u32 = (row * 16) as u32;
    let x1: u32 = if width - x0 >= TILE_SIZE {
        x0 + TILE_SIZE
    } else {
        width
    };
    let y1: u32 = if height - y0 >= TILE_SIZE {
        y0 + TILE_SIZE
    } else {
        height
    };
    Tile { x0, y0, x1, y1 }
}

/// A tile lists each of its pixels, and lists it once.
pub proof fn lemma_tile_lists_each_pixel_once(tile: Tile, i: u32, j: u32)
    requires
        tile.contains(i as int, j as int),
    ensures
        ({
            let k = (j - tile.y0) * tile.columns() + (i - tile.x0);
            &&& 0 <= k < tile.spec_pixels().len()
            &&& tile.spec_pixels()[k] == (i, j)
            &&& forall|m: int|
                0 <= m < tile.spec_pixels().len() && tile.spec_pixels()[m] == (i, j) ==> m == k
        }),
{
    let columns = tile.columns();
    let rows = tile.rows();
    let k = (j - tile.y0) * columns + (i - tile.x0);
    assert(0 <= k < rows * columns) by (nonlinear_arith)
        requires
            k == (j - tile.y0) * columns + (i - tile.x0),
            0 <= j - tile.y0 < rows,
            0 <= i - tile.x0 < columns,
    ;
    lemma_fundamental_div_mod_converse_div(k, columns, j - tile.y0, i - tile.x0);
    lemma_fundamental_div_mod_converse_mod(k, columns, j - tile.y0, i - tile.x0);
    assert forall|m: int|
        0 <= m < tile.spec_pixels().len() && tile.spec_pixels()[m] == (i, j) implies m == k by {
        lemma_fundamental_div_mod(m, columns);
        lemma_mod_bound(m, columns);
        assert(0 <= m / columns < rows) by {
            lemma_multiply_divide_lt(m, columns, rows);
            assert(0 <= m / columns) by (nonlinear_arith)
                requires
                    m == columns * (m / columns) + m % columns,
                    0 <= m,
                    0 <= m % columns < columns,
            ;
        }
        assert(columns * (m / columns) == (m / columns) * columns) by (nonlinear_arith);
    }
}

/// A tile lists no pixel but its own.
pub proof fn lemma_tile_lists_only_its_pixels(tile: Tile, k: int)
    requires
        0 <= k < tile.spec_pixels().len(),
    ensures
        tile.contains(tile.spec_pixels()[k].0 as int, tile.spec_pixels()[k].1 as int),
{
    let columns = tile.columns();
    let rows = tile.rows();
    lemma_fundamental_div_mod(k, columns);
    lemma_mod_bound(k, columns);
    lemma_multiply_divide_lt(k, columns, rows);
    assert(0 <= k / columns) by (nonlinear_arith)
        requires
            k == columns * (k / columns) + k % columns,
            0 <= k,
            0 <= k % columns < columns,
    ;
}

/// Number of the tile that holds the pixel in column `i` of row `j`.
pub open spec fn spec_tile_of(i: int, j: int, width: u32) -> int {
    (j / 16) * spec_tiles_along(width) + i / 16
}

/// Every tile lies inside the image and holds at least one pixel.
pub proof fn lemma_tile_inside_image(index: int, width: u32, height: u32)
    requires
        0 <= index < spec_tile_count(width, height),
    ensures
        ({
            let tile = spec_tile_at(index, width, height);
            &&& tile.x0 < tile.x1 <= width
            &&& tile.y0 < tile.y1 <= height
            &&& tile.columns() <= 16
            &&& tile.rows() <= 16
        }),
{
    lemma_tile_origin(index, width, height);
}

/// The tiles cut the image up without gap or overlap: every pixel of the
/// image lies in exactly one tile.
pub proof fn lemma_every_pixel_in_one_tile(width: u32, height: u32, i: int, j: int)
    requires
        0 <= i < width,
        0 <= j < height,
    ensures
        0 <= spec_tile_of(i, j, width) < spec_tile_count(width, height),
        spec_tile_at(spec_tile_of(i, j, width), width, height).contains(i, j),
        forall|index: int|
            0 <= index < spec_tile_count(width, height) && #[trigger] spec_tile_at(
                index,
                width,
                height,
            ).contains(i, j) ==> index == spec_tile_of(i, j, width),
{
    let across = spec_tiles_along(width);
    let down = spec_tiles_along(height);
    let home = spec_tile_of(i, j, width);
    assert(0 <= home < across * down) by (nonlinear_arith)
        requires
            home == (j / 16) * across + i / 16,
            0 <= i / 16 < across,
            0 <= j / 16 < down,
    ;
    lemma_fundamental_div_mod_converse_div(home, across, j / 16, i / 16);
    lemma_fundamental_div_mod_converse_mod(home, across, j / 16, i / 16);
    assert forall|index: int|
        0 <= index < spec_tile_count(width, height) && #[trigger] spec_tile_at(
            index,
            width,
            height,
        ).contains(i, j) implies index == home by {
        lemma_tile_origin(index, width, height);
        lemma_fundamental_div_mod(index, across);
        let column = index % across;
        let row = index / across;
        assert(column == i / 16);
        assert(row == j / 16);
        assert(across * row == row * across) by (nonlinear_arith);
    }
}

} // verus!
