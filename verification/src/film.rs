//! The image that a render fills.
//!
//! Tiles are rendered in any order; what they produce is a list of pixels,
//! each with its place and colour. The film takes such lists and puts every
//! colour at its place.

use crate::tiles::lemma_every_pixel_in_one_tile;
use crate::tiles::lemma_tile_lists_each_pixel_once;
use crate::tiles::spec_tile_at;
use crate::tiles::spec_tile_count;
use crate::tiles::spec_tile_of;
use vstd::prelude::*;

verus! {

/// A grid of pixels, each with 8 bits of red, green and blue.
///
/// Trusted: the grid is an `image::RgbImage`, which Verus does not look
/// into. What it holds is spoken of through `film_dimensions` and
/// `film_pixels`.
#[verifier::external_body]
pub struct Film {
    image: image::RgbImage,
}

/// Width and height of the grid that `film` holds.
pub uninterp spec fn film_dimensions(film: Film) -> (u32, u32);

/// The colour at each `(column, row)` of the grid that `film` holds.
pub uninterp spec fn film_pixels(film: Film) -> Map<(u32, u32), (u8, u8, u8)>;

/// A pixel that has been rendered: its column, its row and its colour.
#[derive(Clone, Copy, Debug)]
pub struct RenderedPixel {
    pub x: u32,
    pub y: u32,
    pub rgb: (u8, u8, u8),
}

/// The grid of `width` by `height` pixels that are all black.
pub open spec fn black_pixels(width: u32, height: u32) -> Map<(u32, u32), (u8, u8, u8)> {
    Map::new(|at: (u32, u32)| at.0 < width && at.1 < height, |at: (u32, u32)| (0u8, 0u8, 0u8))
}

/// `pixels` after each of `results` was put at its place, in their order.
pub open spec fn placed(
    pixels: Map<(u32, u32), (u8, u8, u8)>,
    results: Seq<RenderedPixel>,
) -> Map<(u32, u32), (u8, u8, u8)>
    decreases results.len(),
{
    if results.len() == 0 {
        pixels
    } else {
        let last = results.last();
        placed(pixels, results.drop_last()).insert((last.x, last.y), last.rgb)
    }
}

/// Every one of `results` lies inside a grid of `width` by `height`.
pub open spec fn all_inside(results: Seq<RenderedPixel>, width: u32, height: u32) -> bool {
    forall|k: int| 0 <= k < results.len() ==> results[k].x < width && results[k].y < height
}

/// Makes a black grid.
///
/// Trusted: the body calls `image::ImageBuffer::new`, which allocates three
/// zero bytes per pixel and aborts where their number does not fit `usize`;
/// the precondition leaves that out.
#[verifier::external_body]
fn blank(width: u32, height: u32) -> (film: Film)
    requires
        3 * width * height <= usize::MAX,
    ensures
        film_dimensions(film) == (width, height),
        film_pixels(film) == black_pixels(width, height),
{
    Film { image: image::ImageBuffer::new(width, height) }
}

/// Sets one pixel.
///
/// Trusted: the body calls `image::ImageBuffer::put_pixel`, which overwrites
/// the pixel at `(x, y)`, leaves all others and the size as they are, and
/// aborts outside the grid; the precondition leaves that out.
#[verifier::external_body]
fn put(film: &mut Film, x: u32, y: u32, rgb: (u8, u8, u8))
    requires
        x < film_dimensions(*old(film)).0,
        y < film_dimensions(*old(film)).1,
    ensures
        film_dimensions(*final(film)) == film_dimensions(*old(film)),
        film_pixels(*final(film)) == film_pixels(*old(film)).insert((x, y), rgb),
{
    film.image.put_pixel(x, y, image::Rgb([rgb.0, rgb.1, rgb.2]));
}

/// Reads one pixel.
///
/// Trusted: the body calls `image::ImageBuffer::get_pixel`, which hands out
/// the pixel at `(x, y)` and aborts outside the grid; the precondition leaves
/// that out.
#[verifier::external_body]
fn get(film: &Film, x: u32, y: u32) -> (rgb: (u8, u8, u8))
    requires
        x < film_dimensions(*film).0,
        y < film_dimensions(*film).1,
    ensures
        rgb == film_pixels(*film)[(x, y)],
{
    let pixel = film.image.get_pixel(x, y);
    (pixel.0[0], pixel.0[1], pixel.0[2])
}

/// Reads the size of the grid.
///
/// Trusted: the body calls `image::ImageBuffer::dimensions`, which returns
/// the width and the height that the grid was made with.
#[verifier::external_body]
fn dimensions(film: &Film) -> (size: (u32, u32))
    ensures
        size == film_dimensions(*film),
{
    film.image.dimensions()
}

impl Film {
    /// Number of columns.
    pub open spec fn spec_width(&self) -> u32 {
        film_dimensions(*self).0
    }

    /// Number of rows.
    pub open spec fn spec_height(&self) -> u32 {
        film_dimensions(*self).1
    }

    /// A black film of `width` by `height` pixels, or `None` where the bytes
    /// of so many pixels cannot be counted in a `usize`.
    pub fn new(width: u32, height: u32) -> (film: Option<Film>)
        ensures
            film is Some <==> 3 * width * height <= usize::MAX,
            film matches Some(f) ==> film_dimensions(f) == (width, height) && film_pixels(f)
                == black_pixels(width, height),
    {
        assert(3 * width * height <= 3 * 0xffff_ffff * 0xffff_ffff) by (nonlinear_arith)
            requires
                width <= 0xffff_ffff,
                height <= 0xffff_ffff,
        ;
        let bytes: u128 = 3 * (width as u128) * (height as u128);
        if bytes <= usize::MAX as u128 {
            Some(blank(width, height))
        } else {
            None
        }
    }

    /// Number of columns.
    #[verifier::when_used_as_spec(spec_width)]
    pub fn width(&self) -> (w: u32)
        ensures
            w == self.spec_width(),
    {
        dimensions(self).0
    }

    /// Number of rows.
    #[verifier::when_used_as_spec(spec_height)]
    pub fn height(&self) -> (h: u32)
        ensures
            h == self.spec_height(),
    {
        dimensions(self).1
    }

    /// The colour at column `x` of row `y`, or `None` outside the film.
    pub fn pixel(&self, x: u32, y: u32) -> (rgb: Option<(u8, u8, u8)>)
        ensures
            rgb is Some <==> x < self.spec_width() && y < self.spec_height(),
            rgb matches Some(c) ==> c == film_pixels(*self)[(x, y)],
    {
        let size = dimensions(self);
        if x < size.0 && y < size.1 {
            Some(get(self, x, y))
        } else {
            None
        }
    }

    /// Puts every one of `results` at its place, in their order.
    pub fn place(&mut self, results: &Vec<RenderedPixel>)
        requires
            all_inside(results@, old(self).spec_width(), old(self).spec_height()),
        ensures
            film_dimensions(*final(self)) == film_dimensions(*old(self)),
            film_pixels(*final(self)) == placed(film_pixels(*old(self)), results@),
    {
        let mut k: usize = 0;
        while k < results.len()
            invariant
                k <= results@.len(),
                all_inside(results@, old(self).spec_width(), old(self).spec_height()),
                film_dimensions(*self) == film_dimensions(*old(self)),
                film_pixels(*self) == placed(film_pixels(*old(self)), results@.take(k as int)),
            decreases results@.len() - k,
        {
            let result = results[k];
            put(self, result.x, result.y, result.rgb);
            proof {
                let done = results@.take(k + 1);
                assert(done.drop_last() =~= results@.take(k as int));
                assert(done.last() == results@[k as int]);
            }
            k = k + 1;
        }
        assert(results@.take(k as int) =~= results@);
    }
}

/// Placing pixels leaves every place alone that none of them names.
pub proof fn lemma_placed_elsewhere(
    pixels: Map<(u32, u32), (u8, u8, u8)>,
    results: Seq<RenderedPixel>,
    x: u32,
    y: u32,
)
    requires
        forall|k: int| 0 <= k < results.len() ==> !(results[k].x == x && results[k].y == y),
    ensures
        placed(pixels, results).dom().contains((x, y)) == pixels.dom().contains((x, y)),
        placed(pixels, results)[(x, y)] == pixels[(x, y)],
    decreases results.len(),
{
    if results.len() > 0 {
        let rest = results.drop_last();
        assert forall|k: int| 0 <= k < rest.len() implies !(rest[k].x == x && rest[k].y == y) by {
            assert(rest[k] == results[k]);
        }
        lemma_placed_elsewhere(pixels, rest, x, y);
        let last = results.last();
        assert(last == results[results.len() - 1]);
        assert((last.x, last.y) != (x, y));
    }
}

/// Where several rendered pixels name one place, the last of them stays.
pub proof fn lemma_placed_last_wins(
    pixels: Map<(u32, u32), (u8, u8, u8)>,
    results: Seq<RenderedPixel>,
    k: int,
)
    requires
        0 <= k < results.len(),
        forall|later: int|
            k < later < results.len() ==> !(results[later].x == results[k].x && results[later].y
                == results[k].y),
    ensures
        placed(pixels, results).dom().contains((results[k].x, results[k].y)),
        placed(pixels, results)[(results[k].x, results[k].y)] == results[k].rgb,
    decreases results.len(),
{
    if k < results.len() - 1 {
        let rest = results.drop_last();
        assert(rest[k] == results[k]);
        assert forall|later: int| k < later < rest.len() implies !(rest[later].x == rest[k].x
            && rest[later].y == rest[k].y) by {
            assert(rest[later] == results[later]);
        }
        lemma_placed_last_wins(pixels, rest, k);
        let last = results.last();
        assert(last == results[results.len() - 1]);
        assert((last.x, last.y) != (results[k].x, results[k].y));
    }
}

/// Placing pixels that lie inside a film neither adds a place to it nor
/// takes one away.
pub proof fn lemma_placed_keeps_places(width: u32, height: u32, results: Seq<RenderedPixel>)
    requires
        all_inside(results, width, height),
    ensures
        placed(black_pixels(width, height), results).dom() == black_pixels(width, height).dom(),
    decreases results.len(),
{
    if results.len() > 0 {
        let rest = results.drop_last();
        assert forall|k: int| 0 <= k < rest.len() implies rest[k].x < width && rest[k].y
            < height by {
            assert(rest[k] == results[k]);
        }
        lemma_placed_keeps_places(width, height, rest);
        let last = results.last();
        assert(last == results[results.len() - 1]);
        assert(black_pixels(width, height).dom().contains((last.x, last.y)));
        assert(placed(black_pixels(width, height), results).dom() =~= black_pixels(
            width,
            height,
        ).dom());
    }
}

/// `results` holds a rendered pixel for every pixel that the tiles of an
/// image of `width` by `height` list.
pub open spec fn covers_tiles(results: Seq<RenderedPixel>, width: u32, height: u32) -> bool {
    forall|t: int, k: int|
        0 <= t < spec_tile_count(width, height) && 0 <= k < spec_tile_at(
            t,
            width,
            height,
        ).spec_pixels().len() ==> exists|r: int|
            0 <= r < results.len() && (results[r].x, results[r].y) == #[trigger] spec_tile_at(
                t,
                width,
                height,
            ).spec_pixels()[k]
}

/// Position of the last of `results` at column `x` of row `y`, or -1 where
/// none is there.
pub open spec fn last_at(results: Seq<RenderedPixel>, x: u32, y: u32) -> int
    decreases results.len(),
{
    if results.len() == 0 {
        -1
    } else if results.last().x == x && results.last().y == y {
        results.len() - 1
    } else {
        last_at(results.drop_last(), x, y)
    }
}

/// Where some rendered pixel names a place, `last_at` finds the last one
/// that does.
pub proof fn lemma_last_at(results: Seq<RenderedPixel>, x: u32, y: u32, r: int)
    requires
        0 <= r < results.len(),
        results[r].x == x,
        results[r].y == y,
    ensures
        r <= last_at(results, x, y) < results.len(),
        results[last_at(results, x, y)].x == x,
        results[last_at(results, x, y)].y == y,
        forall|later: int|
            last_at(results, x, y) < later < results.len() ==> !(results[later].x == x
                && results[later].y == y),
    decreases results.len(),
{
    let last = results.last();
    assert(last == results[results.len() - 1]);
    if !(last.x == x && last.y == y) {
        let rest = results.drop_last();
        assert(rest[r] == results[r]);
        lemma_last_at(rest, x, y, r);
        assert(rest[last_at(rest, x, y)] == results[last_at(rest, x, y)]);
        assert forall|later: int| last_at(results, x, y) < later < results.len() implies !(
        results[later].x == x && results[later].y == y) by {
            if later < rest.len() {
                assert(rest[later] == results[later]);
            }
        }
    }
}

/// Once every tile of an image has been rendered and its pixels placed on a
/// black film of the image's size, every pixel of the film holds a rendered
/// colour: that of the last rendered pixel at its place.
pub proof fn lemma_rendered_tiles_fill_the_film(
    width: u32,
    height: u32,
    results: Seq<RenderedPixel>,
    x: u32,
    y: u32,
)
    requires
        covers_tiles(results, width, height),
        x < width,
        y < height,
    ensures
        0 <= last_at(results, x, y) < results.len(),
        results[last_at(results, x, y)].x == x,
        results[last_at(results, x, y)].y == y,
        placed(black_pixels(width, height), results)[(x, y)] == results[last_at(
            results,
            x,
            y,
        )].rgb,
{
    lemma_every_pixel_in_one_tile(width, height, x as int, y as int);
    let t = spec_tile_of(x as int, y as int, width);
    let tile = spec_tile_at(t, width, height);
    lemma_tile_lists_each_pixel_once(tile, x, y);
    let k = (y - tile.y0) * tile.columns() + (x - tile.x0);
    assert(tile.spec_pixels()[k] == (x, y));
    let r = choose|r: int|
        0 <= r < results.len() && (results[r].x, results[r].y) == #[trigger] spec_tile_at(
            t,
            width,
            height,
        ).spec_pixels()[k];
    lemma_last_at(results, x, y, r);
    lemma_placed_last_wins(black_pixels(width, height), results, last_at(results, x, y));
}

} // verus!
