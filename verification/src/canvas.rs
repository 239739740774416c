//! The canvas: a grid of pixels stored row by row with the bottom scanline
//! first, filled by a per-pixel function and written out as a plain-text
//! pixmap with the top scanline first.

use crate::colors::{decimal, pixel_line, write_color_to_writer, write_decimal};
use crate::vec3::Vec3;
use vstd::arithmetic::div_mod::lemma_fundamental_div_mod_converse;
use vstd::arithmetic::mul::lemma_mul_is_distributive_add_other_way;
use vstd::prelude::*;

verus! {

pub struct Canvas<P> {
    pixels: Vec<P>,
    samples_per_pixel: usize,
    xsize: usize,
    ysize: usize,
}

/// Column and row of the pixel stored at `index` in a grid that is `xsize`
/// pixels wide.
pub fn index_to_xy(xsize: usize, index: usize) -> (r: (usize, usize))
    requires
        xsize > 0,
    ensures
        r.0 == index % xsize,
        r.1 == index / xsize,
{
    (index % xsize, index / xsize)
}

/// Position in storage of the `k`-th pixel of the output, which runs through
/// the rows from the top one down and through each row from the left.
pub open spec fn storage_index(width: nat, height: nat, k: int) -> int {
    (height - 1 - k / (width as int)) * width + k % (width as int)
}

/// The header of the pixmap: magic number, width and height, and the
/// largest channel value, each line ended by a line feed.
pub open spec fn header_text(width: nat, height: nat) -> Seq<u8> {
    seq![80u8, 51u8, 10u8] + decimal(width) + seq![32u8] + decimal(height) + seq![
        10u8,
        50u8,
        53u8,
        53u8,
        10u8,
    ]
}

/// The lines of the pixels whose corrected colours are `colors`, one after
/// the other.
pub open spec fn body_text(colors: Seq<Vec3>) -> Seq<u8>
    decreases colors.len(),
{
    if colors.len() == 0 {
        Seq::empty()
    } else {
        body_text(colors.drop_last()) + pixel_line(colors.last())
    }
}

/// The pixel of column `x` and row `y`, evaluated for the pixel stored at
/// `index`.
fn eval_pixel<P, F: Fn(usize, usize) -> P>(xsize: usize, index: usize, f: &F) -> (p: P)
    requires
        xsize > 0,
        f.requires((index % xsize, index / xsize)),
    ensures
        f.ensures((index % xsize, index / xsize), p),
{
    let (x, y) = index_to_xy(xsize, index);
    f(x, y)
}

/// Evaluates all `size` pixels of a grid `xsize` wide on rayon's thread pool.
///
/// Calls `par_extend` on an empty `Vec` with the parallel iterator
/// `(0..size).into_par_iter().map(..)`. The claim taken from rayon: a `Vec`
/// extended from an indexed parallel iterator receives one item for each
/// index, in index order, whatever thread computed it. So entry `i` of the
/// result is what the closure gave for index `i`.
#[verifier::external_body]
fn par_pixels<P: Send, F: Fn(usize, usize) -> P + Send + Sync>(
    xsize: usize,
    size: usize,
    f: &F,
) -> (pixels: Vec<P>)
    requires
        size > 0 ==> xsize > 0,
        forall|i: int| 0 <= i < size ==> #[trigger] f.requires(((i % (xsize as int)) as usize, (i / (xsize as int)) as usize)),
    ensures
        pixels@.len() == size,
        forall|i: int|
            0 <= i < size ==> f.ensures(
                ((i % (xsize as int)) as usize, (i / (xsize as int)) as usize),
                #[trigger] pixels@[i],
            ),
{
    let mut pixels = Vec::with_capacity(size);
    rayon::iter::ParallelExtend::par_extend(
        &mut pixels,
        rayon::iter::ParallelIterator::map(
            rayon::iter::IntoParallelIterator::into_par_iter(0..size),
            |idx| eval_pixel(xsize, idx, f),
        ),
    );
    pixels
}

impl<P> Canvas<P> {
    #[verifier::type_invariant]
    spec fn well_formed(self) -> bool {
        self.pixels@.len() == self.xsize * self.ysize
    }

    /// The pixels in storage order: row 0, the bottom scanline, first.
    pub closed spec fn pixel_seq(self) -> Seq<P> {
        self.pixels@
    }

    pub closed spec fn width(self) -> nat {
        self.xsize as nat
    }

    pub closed spec fn height(self) -> nat {
        self.ysize as nat
    }

    pub closed spec fn samples(self) -> nat {
        self.samples_per_pixel as nat
    }

    /// The canvas of `x` by `y` pixels whose pixel in column `i` and row `j`
    /// is `f(i, j)`. Rows are evaluated from row 0 up, each from the left.
    pub fn from_fn<F: Fn(usize, usize) -> P>(x: usize, y: usize, samples_per_pixel: usize, f: F) -> (c:
        Self)
        requires
            x * y <= usize::MAX,
            forall|i: usize, j: usize| i < x && j < y ==> #[trigger] f.requires((i, j)),
        ensures
            c.width() == x,
            c.height() == y,
            c.samples() == samples_per_pixel,
            c.pixel_seq().len() == x * y,
            forall|k: int|
                0 <= k < x * y ==> f.ensures(
                    ((k % (x as int)) as usize, (k / (x as int)) as usize),
                    #[trigger] c.pixel_seq()[k],
                ),
    {
        let mut pixels: Vec<P> = Vec::new();
        for row in 0..y
            invariant
                x * y <= usize::MAX,
                pixels@.len() == row * x,
                forall|i: usize, j: usize| i < x && j < y ==> #[trigger] f.requires((i, j)),
                forall|k: int|
                    0 <= k < row * x ==> f.ensures(
                        ((k % (x as int)) as usize, (k / (x as int)) as usize),
                        #[trigger] pixels@[k],
                    ),
        {
            for col in 0..x
                invariant
                    x * y <= usize::MAX,
                    row < y,
                    pixels@.len() == row * x + col,
                    forall|i: usize, j: usize| i < x && j < y ==> #[trigger] f.requires((i, j)),
                    forall|k: int|
                        0 <= k < row * x + col ==> f.ensures(
                            ((k % (x as int)) as usize, (k / (x as int)) as usize),
                            #[trigger] pixels@[k],
                        ),
            {
                let p = f(col, row);
                proof {
                    lemma_fundamental_div_mod_converse(
                        row * x + col,
                        x as int,
                        row as int,
                        col as int,
                    );
                }
                pixels.push(p);
            }
            proof {
                lemma_mul_is_distributive_add_other_way(x as int, row as int, 1);
            }
        }
        assert(y * x == x * y) by (nonlinear_arith);
        Self { samples_per_pixel, pixels, xsize: x, ysize: y }
    }

    /// As `from_fn`, with the pixels evaluated in parallel.
    pub fn from_fn_parallel<F: Fn(usize, usize) -> P + Send + Sync>(
        x: usize,
        y: usize,
        samples_per_pixel: usize,
        f: F,
    ) -> (c: Self) where P: Send
        requires
            x * y <= usize::MAX,
            forall|i: usize, j: usize| i < x && j < y ==> #[trigger] f.requires((i, j)),
        ensures
            c.width() == x,
            c.height() == y,
            c.samples() == samples_per_pixel,
            c.pixel_seq().len() == x * y,
            forall|k: int|
                0 <= k < x * y ==> f.ensures(
                    ((k % (x as int)) as usize, (k / (x as int)) as usize),
                    #[trigger] c.pixel_seq()[k],
                ),
    {
        let size = x * y;
        proof {
            assert forall|i: int| 0 <= i < size implies #[trigger] f.requires(
                ((i % (x as int)) as usize, (i / (x as int)) as usize),
            ) by {
                lemma_index_in_grid(x as int, y as int, i);
            }
        }
        let pixels = par_pixels(x, size, &f);
        Self { samples_per_pixel, pixels, xsize: x, ysize: y }
    }

    /// The canvas over pixels that were evaluated elsewhere, in storage
    /// order; `None` where their number is not `x * y`.
    pub fn from_pixels(x: usize, y: usize, samples_per_pixel: usize, pixels: Vec<P>) -> (c: Option<
        Self,
    >)
        ensures
            c is Some <==> pixels@.len() == x * y,
            c matches Some(canvas) ==> canvas.width() == x && canvas.height() == y
                && canvas.samples() == samples_per_pixel && canvas.pixel_seq() == pixels@,
    {
        let count = pixels.len();
        match x.checked_mul(y) {
            Some(size) => {
                if count == size {
                    Some(Self { samples_per_pixel, pixels, xsize: x, ysize: y })
                } else {
                    None
                }
            },
            None => None,
        }
    }

    pub fn dimensions(&self) -> (r: (usize, usize))
        ensures
            r.0 == self.width(),
            r.1 == self.height(),
    {
        (self.xsize, self.ysize)
    }

    pub fn get_pixels(&self) -> (r: &[P])
        ensures
            r@ == self.pixel_seq(),
            r@.len() == self.width() * self.height(),
    {
        proof {
            use_type_invariant(self);
        }
        self.pixels.as_slice()
    }

    /// The pixels in the order of the output: the top row first, each row
    /// from the left.
    pub fn iter_pixels(&self) -> (r: Vec<&P>)
        ensures
            r@.len() == self.width() * self.height(),
            forall|k: int|
                0 <= k < r@.len() ==> *(#[trigger] r@[k]) == self.pixel_seq()[storage_index(
                    self.width(),
                    self.height(),
                    k,
                )],
    {
        proof {
            use_type_invariant(self);
        }
        let mut out: Vec<&P> = Vec::new();
        let total = self.pixels.len();
        if self.xsize == 0 {
            assert(self.xsize * self.ysize == 0) by (nonlinear_arith)
                requires
                    self.xsize == 0,
            ;
            return out;
        }
        let mut row: usize = self.ysize;
        while row > 0
            invariant
                row <= self.ysize,
                self.xsize > 0,
                total == self.xsize * self.ysize,
                total == self.pixels@.len(),
                out@.len() == (self.ysize - row) * self.xsize,
                forall|k: int|
                    0 <= k < out@.len() ==> *(#[trigger] out@[k]) == self.pixels@[storage_index(
                        self.xsize as nat,
                        self.ysize as nat,
                        k,
                    )],
            decreases row,
        {
            row = row - 1;
            let ghost done = out@.len() as int;
            for col in 0..self.xsize
                invariant
                    row < self.ysize,
                    self.xsize > 0,
                    total == self.xsize * self.ysize,
                    total == self.pixels@.len(),
                    done == (self.ysize - row - 1) * self.xsize,
                    out@.len() == done + col,
                    forall|k: int|
                        0 <= k < out@.len() ==> *(#[trigger] out@[k]) == self.pixels@[storage_index(
                            self.xsize as nat,
                            self.ysize as nat,
                            k,
                        )],
            {
                proof {
                    lemma_fundamental_div_mod_converse(
                        done + col,
                        self.xsize as int,
                        self.ysize - row - 1,
                        col as int,
                    );
                    assert(0 <= row * self.xsize + col < self.xsize * self.ysize) by (nonlinear_arith)
                        requires
                            0 <= row < self.ysize,
                            0 <= col < self.xsize,
                    ;
                    assert(0 <= row * self.xsize <= row * self.xsize + col);
                }
                out.push(&self.pixels[row * self.xsize + col]);
            }
            proof {
                lemma_mul_is_distributive_add_other_way(
                    self.xsize as int,
                    self.ysize - row - 1,
                    1,
                );
            }
        }
        assert(self.ysize * self.xsize == self.xsize * self.ysize) by (nonlinear_arith);
        out
    }

    /// Appends the header of the pixmap to an in-memory writer.
    pub fn write_header_to_writer(&self, w: &mut Vec<u8>)
        ensures
            final(w)@ == old(w)@ + header_text(self.width(), self.height()),
    {
        w.push(80);
        w.push(51);
        w.push(10);
        write_decimal(w, self.xsize);
        w.push(32);
        write_decimal(w, self.ysize);
        w.push(10);
        w.push(50);
        w.push(53);
        w.push(53);
        w.push(10);
    }

    /// `codes` holds, for each pixel in output order, a corrected colour that
    /// `encode` can return for it.
    pub open spec fn is_encoding<E: Fn(&P, usize) -> Vec3>(
        self,
        encode: &E,
        codes: Seq<Vec3>,
    ) -> bool {
        &&& codes.len() <= self.width() * self.height()
        &&& forall|k: int|
            0 <= k < codes.len() ==> encode.ensures(
                (
                    &self.pixel_seq()[storage_index(self.width(), self.height(), k)],
                    self.samples() as usize,
                ),
                #[trigger] codes[k],
            )
    }

    /// Appends the lines of all pixels to an in-memory writer, from the top
    /// row down and from left to right. `encode` turns a pixel's accumulated
    /// colour and the number of samples into the averaged, gamma-corrected
    /// colour, of which the channel bytes are written.
    pub fn write_pixels_to_writer<E: Fn(&P, usize) -> Vec3>(
        &self,
        writer: &mut Vec<u8>,
        encode: &E,
    )
        requires
            forall|k: int|
                0 <= k < self.pixel_seq().len() ==> encode.requires(
                    (&#[trigger] self.pixel_seq()[k], self.samples() as usize),
                ),
        ensures
            exists|codes: Seq<Vec3>|
                codes.len() == self.width() * self.height() && #[trigger] self.is_encoding(
                    encode,
                    codes,
                ) && final(writer)@ == old(writer)@ + body_text(codes),
    {
        proof {
            use_type_invariant(self);
        }
        let order = self.iter_pixels();
        let ghost mut codes: Seq<Vec3> = Seq::empty();
        for k in 0..order.len()
            invariant
                self.pixels@.len() == self.xsize * self.ysize,
                order@.len() == self.width() * self.height(),
                forall|i: int|
                    0 <= i < order@.len() ==> *(#[trigger] order@[i]) == self.pixel_seq()[storage_index(
                        self.width(),
                        self.height(),
                        i,
                    )],
                forall|i: int|
                    0 <= i < self.pixel_seq().len() ==> encode.requires(
                        (&#[trigger] self.pixel_seq()[i], self.samples() as usize),
                    ),
                codes.len() == k,
                self.is_encoding(encode, codes),
                writer@ == old(writer)@ + body_text(codes),
        {
            let ghost before = writer@;
            let ghost done = codes;
            proof {
                lemma_storage_index_in_grid(self.width(), self.height(), k as int);
                assert(*order@[k as int] == self.pixel_seq()[storage_index(
                    self.width(),
                    self.height(),
                    k as int,
                )]);
            }
            write_color_to_writer(writer, order[k], self.samples_per_pixel, encode);
            proof {
                let rgb = choose|rgb: Vec3| #[trigger]
                    encode.ensures((order@[k as int], self.samples_per_pixel), rgb) && writer@
                        == before + pixel_line(rgb);
                codes = codes.push(rgb);
                assert(codes.drop_last() == done);
                assert(codes.last() == rgb);
                assert forall|i: int| 0 <= i < codes.len() implies encode.ensures(
                    (
                        &self.pixel_seq()[storage_index(self.width(), self.height(), i)],
                        self.samples() as usize,
                    ),
                    #[trigger] codes[i],
                ) by {
                    if i < k {
                        assert(codes[i] == done[i]);
                    }
                }
            }
        }
    }
}

/// The `k`-th pixel of the output is stored inside the grid.
pub proof fn lemma_storage_index_in_grid(width: nat, height: nat, k: int)
    requires
        0 <= k < width * height,
    ensures
        0 <= storage_index(width, height, k) < width * height,
{
    lemma_index_in_grid(width as int, height as int, k);
    let row = height - 1 - k / (width as int);
    let col = k % (width as int);
    assert(0 <= row * width + col < width * height) by (nonlinear_arith)
        requires
            0 <= row < height,
            0 <= col < width,
    ;
}

/// Writing out is turning the picture upside down: the pixel of column `x`
/// in the `j`-th row from the top comes from storage row `height - 1 - j`.
pub proof fn lemma_output_is_top_down(width: nat, height: nat, x: int, j: int)
    requires
        0 <= x < width,
        0 <= j < height,
    ensures
        storage_index(width, height, j * width + x) == (height - 1 - j) * width + x,
{
    lemma_fundamental_div_mod_converse(j * width + x, width as int, j, x);
}

/// The same picture gives the same text: where `encode` can return only one
/// value for each pixel, two encodings of a canvas are equal, and so are the
/// bodies written from them.
pub proof fn lemma_body_is_determined<P, E: Fn(&P, usize) -> Vec3>(
    canvas: Canvas<P>,
    encode: &E,
    first: Seq<Vec3>,
    second: Seq<Vec3>,
)
    requires
        forall|p: P, n: usize, a: Vec3, b: Vec3|
            #[trigger] encode.ensures((&p, n), a) && #[trigger] encode.ensures((&p, n), b) ==> a
                == b,
        first.len() == second.len(),
        canvas.is_encoding(encode, first),
        canvas.is_encoding(encode, second),
    ensures
        first == second,
        body_text(first) == body_text(second),
{
    assert forall|k: int| 0 <= k < first.len() implies first[k] == second[k] by {
        let p = canvas.pixel_seq()[storage_index(canvas.width(), canvas.height(), k)];
        assert(encode.ensures((&p, canvas.samples() as usize), first[k]));
        assert(encode.ensures((&p, canvas.samples() as usize), second[k]));
    }
    assert(first =~= second);
}

/// An index below `x * y` splits into a column below `x` and a row below `y`.
proof fn lemma_index_in_grid(x: int, y: int, i: int)
    requires
        0 <= i < x * y,
        0 <= x,
        0 <= y,
    ensures
        x > 0,
        0 <= i % x < x,
        0 <= i / x < y,
{
    if x == 0 {
        assert(x * y == 0) by (nonlinear_arith)
            requires
                x == 0,
        ;
    }
    assert(0 <= i / x < y) by (nonlinear_arith)
        requires
            0 <= i < x * y,
            x > 0,
    ;
}

} // verus!
