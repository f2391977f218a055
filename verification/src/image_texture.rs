//! Nearest-texel lookup in a decoded image.
//!
//! The texture holds an image as rows of 8-bit red, green and blue values, or
//! the mark that no image could be loaded. Lookups past the right or bottom
//! edge fall on the last column or row.

use vstd::prelude::*;

verus! {

/// A decoded image to look colours up in, or the mark that there is none.
#[derive(Debug)]
pub struct ImageTexture {
    image: Option<Vec<u8>>,
    width: u32,
    height: u32,
}

/// `rgb` can be the pixels of an image of `width` by `height`: no side is
/// zero, and there are three bytes for each pixel.
pub open spec fn is_image(width: u32, height: u32, rgb: Seq<u8>) -> bool {
    width > 0 && height > 0 && rgb.len() == width * height * 3
}

impl ImageTexture {
    #[verifier::type_invariant]
    spec fn well_formed(self) -> bool {
        match self.image {
            Some(rgb) => is_image(self.width, self.height, rgb@),
            None => self.width == 0 && self.height == 0,
        }
    }

    /// An image is there to look up.
    pub closed spec fn spec_is_loaded(&self) -> bool {
        self.image is Some
    }

    /// Number of columns; 0 without an image.
    pub closed spec fn spec_width(&self) -> u32 {
        self.width
    }

    /// Number of rows; 0 without an image.
    pub closed spec fn spec_height(&self) -> u32 {
        self.height
    }

    /// The bytes of the image, row by row, three for each pixel; empty
    /// without an image.
    pub closed spec fn bytes(&self) -> Seq<u8> {
        match self.image {
            Some(rgb) => rgb@,
            None => Seq::empty(),
        }
    }

    /// The colour stored for column `i` of row `j`.
    pub open spec fn stored(&self, i: int, j: int) -> (u8, u8, u8) {
        let at = (j * self.spec_width() + i) * 3;
        (self.bytes()[at], self.bytes()[at + 1], self.bytes()[at + 2])
    }

    /// The colour that a lookup at column `i` of row `j` gives: that of the
    /// nearest pixel of the image.
    pub open spec fn spec_texel(&self, i: u32, j: u32) -> (u8, u8, u8) {
        let column = if i < self.spec_width() {
            i as int
        } else {
            self.spec_width() - 1
        };
        let row = if j < self.spec_height() {
            j as int
        } else {
            self.spec_height() - 1
        };
        self.stored(column, row)
    }

    /// A texture over the image of `width` by `height` pixels whose bytes are
    /// `rgb`. Where the three do not describe an image, the texture is the
    /// one without an image.
    pub fn new(width: u32, height: u32, rgb: Vec<u8>) -> (texture: ImageTexture)
        ensures
            texture.spec_is_loaded() <==> is_image(width, height, rgb@),
            texture.spec_is_loaded() ==> texture.spec_width() == width && texture.spec_height()
                == height && texture.bytes() == rgb@,
            !texture.spec_is_loaded() ==> texture.spec_width() == 0 && texture.spec_height() == 0,
    {
        if width == 0 || height == 0 {
            return ImageTexture::missing();
        }
        assert(width * height * 3 <= 0xffff_ffff * 0xffff_ffff * 3) by (nonlinear_arith)
            requires
                width <= 0xffff_ffff,
                height <= 0xffff_ffff,
        ;
        let expected: u128 = (width as u128) * (height as u128) * 3;
        if rgb.len() as u128 != expected {
            return ImageTexture::missing();
        }
        ImageTexture { image: Some(rgb), width, height }
    }

    /// The texture without an image.
    pub fn missing() -> (texture: ImageTexture)
        ensures
            !texture.spec_is_loaded(),
            texture.spec_width() == 0,
            texture.spec_height() == 0,
    {
        ImageTexture { image: None, width: 0, height: 0 }
    }

    /// An image is there to look up.
    #[verifier::when_used_as_spec(spec_is_loaded)]
    pub fn is_loaded(&self) -> (loaded: bool)
        ensures
            loaded == self.spec_is_loaded(),
    {
        self.image.is_some()
    }

    /// Number of columns; 0 without an image.
    #[verifier::when_used_as_spec(spec_width)]
    pub fn width(&self) -> (w: u32)
        ensures
            w == self.spec_width(),
            self.spec_is_loaded() <==> w > 0,
    {
        proof {
            use_type_invariant(self);
        }
        self.width
    }

    /// Number of rows; 0 without an image.
    #[verifier::when_used_as_spec(spec_height)]
    pub fn height(&self) -> (h: u32)
        ensures
            h == self.spec_height(),
            self.spec_is_loaded() <==> h > 0,
    {
        proof {
            use_type_invariant(self);
        }
        self.height
    }

    /// The colour of the pixel nearest to column `i` of row `j`, or `None`
    /// without an image.
    pub fn texel(&self, i: u32, j: u32) -> (colour: Option<(u8, u8, u8)>)
        ensures
            colour is Some <==> self.spec_is_loaded(),
            colour matches Some(rgb) ==> rgb == self.spec_texel(i, j),
    {
        proof {
            use_type_invariant(self);
        }
        match &self.image {
            None => None,
            Some(rgb) => {
                let column: u32 = if i < self.width {
                    i
                } else {
                    self.width - 1
                };
                let row: u32 = if j < self.height {
                    j
                } else {
                    self.height - 1
                };
                let width: usize = self.width as usize;
                proof {
                    let w = self.width as int;
                    let h = self.height as int;
                    assert(rgb@.len() == w * h * 3);
                    assert(rgb.len() <= usize::MAX);
                    assert(0 <= row * w <= row * w + column < w * h && (row * w + column) * 3 + 2
                        < w * h * 3) by (nonlinear_arith)
                        requires
                            0 <= column < w,
                            0 <= row < h,
                    ;
                }
                let at: usize = (row as usize * width + column as usize) * 3;
                Some((rgb[at], rgb[at + 1], rgb[at + 2]))
            },
        }
    }
}

} // verus!
