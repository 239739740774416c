//! The image texture: a decoded picture of three bytes per pixel, row by row
//! from the top, and the rule that finds the texel for a position.

use crate::scalar::Scalar;
use vstd::prelude::*;

verus! {

/// Whether a checker pattern shows its odd colour: the product of the three
/// sines at the point is a number below zero.
pub fn checker_takes_odd(sines: Scalar) -> (r: bool)
    ensures
        r == sines.lt_spec(Scalar { code: 0 }),
{
    sines.lt(Scalar::zero())
}

pub struct ImageTexture {
    bytes_per_pixel: usize,
    data: Vec<u8>,
    width: usize,
    height: usize,
    bytes_per_scanline: usize,
}

/// Bytes of one texel: red, green and blue.
pub const BYTES_PER_PIXEL: usize = 3;

/// `i` held below `limit`: indices at or beyond the limit become the last
/// index.
pub open spec fn clamp_index(i: int, limit: int) -> int {
    if i >= limit {
        limit - 1
    } else {
        i
    }
}

/// Whether decoded data is a picture: it has texels, and three bytes for
/// each of them.
pub open spec fn is_picture(width: usize, height: usize, data: Seq<u8>) -> bool {
    width > 0 && height > 0 && data.len() == 3 * width * height
}

impl ImageTexture {
    /// The picture is empty, or holds exactly `height` rows of `width` texels
    /// of three bytes.
    #[verifier::type_invariant]
    spec fn wf(self) -> bool {
        &&& self.bytes_per_pixel == BYTES_PER_PIXEL
        &&& self.bytes_per_scanline == BYTES_PER_PIXEL * self.width
        &&& (self.data@.len() == 0 || (self.width > 0 && self.height > 0 && self.data@.len()
            == BYTES_PER_PIXEL * self.width * self.height))
    }

    /// The bytes of the picture.
    pub closed spec fn bytes(self) -> Seq<u8> {
        self.data@
    }

    pub closed spec fn columns(self) -> nat {
        self.width as nat
    }

    pub closed spec fn rows(self) -> nat {
        self.height as nat
    }

    /// The three bytes of the texel in column `i` of row `j`, both held
    /// inside the picture; black for an empty picture.
    pub open spec fn texel_spec(self, i: int, j: int) -> (u8, u8, u8) {
        if self.bytes().len() == 0 {
            (0u8, 0u8, 0u8)
        } else {
            let offset = (clamp_index(j, self.rows() as int) * self.columns() + clamp_index(
                i,
                self.columns() as int,
            )) * 3;
            (self.bytes()[offset], self.bytes()[offset + 1], self.bytes()[offset + 2])
        }
    }

    /// The empty picture, which is black everywhere.
    pub fn new() -> (r: Self)
        ensures
            r.bytes().len() == 0,
            r.columns() == 0,
            r.rows() == 0,
    {
        Self {
            data: Vec::new(),
            bytes_per_pixel: 3,
            width: 0,
            height: 0,
            bytes_per_scanline: 0,
        }
    }

    /// The picture over decoded data. Data that is not `height` rows of
    /// `width` texels of three bytes gives the empty picture.
    pub fn from(width: usize, height: usize, data: Vec<u8>) -> (r: Self)
        ensures
            is_picture(width, height, data@) ==> r.bytes() == data@ && r.columns() == width
                && r.rows() == height,
            !is_picture(width, height, data@) ==> r.bytes().len() == 0 && r.columns() == 0
                && r.rows() == 0,
    {
        let count = data.len();
        if width == 0 || height == 0 {
            return Self::new();
        }
        let fits = match width.checked_mul(height) {
            Some(texels) => match texels.checked_mul(3) {
                Some(size) => {
                    assert(3 * width * height == size) by (nonlinear_arith)
                        requires
                            size == texels * 3,
                            texels == width * height,
                    ;
                    size == count
                },
                None => {
                    assert(3 * width * height > usize::MAX) by (nonlinear_arith)
                        requires
                            texels * 3 > usize::MAX,
                            texels == width * height,
                    ;
                    false
                },
            },
            None => {
                assert(3 * width * height > usize::MAX) by (nonlinear_arith)
                    requires
                        width * height > usize::MAX,
                ;
                false
            },
        };
        if !fits {
            return Self::new();
        }
        assert(3 * width <= usize::MAX) by (nonlinear_arith)
            requires
                3 * width * height <= usize::MAX,
                height > 0,
        ;
        Self { bytes_per_pixel: 3, data, width, height, bytes_per_scanline: 3 * width }
    }

    /// The three bytes of the texel in column `i` of row `j`. Positions
    /// beyond the last column or row are held to the last; an empty picture
    /// is black.
    pub fn texel(&self, i: usize, j: usize) -> (rgb: (u8, u8, u8))
        ensures
            rgb == self.texel_spec(i as int, j as int),
    {
        proof {
            use_type_invariant(self);
        }
        if self.data.len() == 0 {
            return (0, 0, 0);
        }
        let mut i = i;
        let mut j = j;
        if i >= self.width {
            i = self.width - 1;
        }
        if j >= self.height {
            j = self.height - 1;
        }
        proof {
            assert(j * (3 * self.width) + i * 3 + 2 < 3 * self.width * self.height)
                by (nonlinear_arith)
                requires
                    0 <= i < self.width,
                    0 <= j < self.height,
            ;
            assert(j * (3 * self.width) + i * 3 == (j * self.width + i) * 3) by (nonlinear_arith);
            assert(0 <= j * (3 * self.width) <= j * (3 * self.width) + i * 3) by (nonlinear_arith)
                requires
                    0 <= i,
                    0 <= j,
                    0 <= self.width,
            ;
        }
        let offset = j * self.bytes_per_scanline + i * self.bytes_per_pixel;
        (self.data[offset], self.data[offset + 1], self.data[offset + 2])
    }

    /// Bytes of one texel.
    pub fn bytes_per_pixel(&self) -> (r: usize)
        ensures
            r == BYTES_PER_PIXEL,
    {
        proof {
            use_type_invariant(self);
        }
        self.bytes_per_pixel
    }

    pub fn dimensions(&self) -> (r: (usize, usize))
        ensures
            r.0 == self.columns(),
            r.1 == self.rows(),
    {
        (self.width, self.height)
    }
}

} // verus!
