//! Transposing an image: pixel `(x, y)` moves to `(y, x)`, all four of its
//! channels together, and width and height change places.

use vstd::prelude::*;

use crate::model::image_view;
use crate::model::lemma_cell_coordinates;
use crate::model::lemma_cell_in_bounds;
use crate::model::lemma_index_is_cell;
use crate::model::lemma_rows_determine;
use crate::model::rows_concat;
use crate::model::ImageView;
use crate::parallel::par_fill_rows_exact;
use crate::parallel::RowKernel;

verus! {

/// Column `x` of the image, laid out as a row of pixels from top to bottom.
pub open spec fn transposed_row(img: ImageView, x: int) -> Seq<u8> {
    Seq::new(img.height * 4, |j: int| img.channel(x, j / 4, j % 4))
}

/// The transposed image: its rows are the columns of `img`.
pub open spec fn transposed(img: ImageView) -> ImageView {
    ImageView {
        width: img.height,
        height: img.width,
        pixels: rows_concat(img.height * 4, img.width, |x: int| transposed_row(img, x)),
    }
}

/// The transposed image is well-formed.
pub proof fn lemma_transposed_wf(img: ImageView)
    ensures
        transposed(img).wf(),
        transposed(img).width == img.height,
        transposed(img).height == img.width,
{
    assert(img.width * (img.height * 4) == img.height * img.width * 4) by (nonlinear_arith);
}

/// Pixel `(x, y)` of an image is pixel `(y, x)` of the transposed image.
pub proof fn lemma_transposed_pixel(img: ImageView, x: int, y: int, c: int)
    requires
        0 <= x < img.width,
        0 <= y < img.height,
        0 <= c < 4,
    ensures
        transposed(img).channel(y, x, c) == img.channel(x, y, c),
{
    let w = img.width as int;
    let h = img.height as int;
    let i = (x * h + y) * 4 + c;
    assert(i == x * (h * 4) + (y * 4 + c)) by (nonlinear_arith)
        requires
            i == (x * h + y) * 4 + c,
    ;
    lemma_cell_in_bounds(h * 4, w, y * 4 + c, x);
    lemma_cell_coordinates(h * 4, y * 4 + c, x);
    assert(img.width * (img.height * 4) == (h * 4) * w) by (nonlinear_arith)
        requires
            w == img.width,
            h == img.height,
    ;
}

/// Every byte of a well-formed image is one channel of one of its pixels.
pub proof fn lemma_byte_is_channel(img: ImageView, i: int)
    requires
        img.wf(),
        0 <= i < img.pixels.len(),
    ensures
        0 <= (i / 4) % (img.width as int) < img.width,
        0 <= (i / 4) / (img.width as int) < img.height,
        img.pixels[i] == img.channel(
            (i / 4) % (img.width as int),
            (i / 4) / (img.width as int),
            i % 4,
        ),
{
    let w = img.width as int;
    let h = img.height as int;
    if w == 0 {
        assert(img.width * img.height * 4 == 0) by (nonlinear_arith)
            requires
                img.width == 0,
        ;
    } else {
        assert(img.width * img.height * 4 == (w * h) * 4) by (nonlinear_arith)
            requires
                w == img.width,
                h == img.height,
        ;
        lemma_index_is_cell(w, h, i / 4);
    }
}

/// Transpose involution: transposing an image twice gives back the image,
/// byte for byte and with its width and height.
pub proof fn lemma_transpose_involution(img: ImageView)
    requires
        img.wf(),
    ensures
        transposed(transposed(img)) == img,
{
    let once = transposed(img);
    let twice = transposed(once);
    lemma_transposed_wf(img);
    lemma_transposed_wf(once);
    assert(twice.pixels.len() == img.pixels.len()) by {
        assert(img.height * img.width * 4 == img.width * img.height * 4) by (nonlinear_arith);
    }
    assert forall|i: int| 0 <= i < img.pixels.len() implies twice.pixels[i] == img.pixels[i] by {
        lemma_byte_is_channel(img, i);
        lemma_byte_is_channel(twice, i);
        let x = (i / 4) % (img.width as int);
        let y = (i / 4) / (img.width as int);
        let c = i % 4;
        lemma_transposed_pixel(once, y, x, c);
        lemma_transposed_pixel(img, x, y, c);
    }
}

/// The rows of a transposed image.
pub(crate) struct TransposeRows<'a> {
    pub width: u32,
    pub height: u32,
    pub pixels: &'a [u8],
}

impl<'a> TransposeRows<'a> {
    pub(crate) open spec fn image(&self) -> ImageView {
        image_view(self.width, self.height, self.pixels@)
    }
}

impl<'a> RowKernel<u8> for TransposeRows<'a> {
    open spec fn wf(&self) -> bool {
        self.pixels@.len() >= self.width * self.height * 4
    }

    open spec fn rows(&self) -> nat {
        self.width as nat
    }

    open spec fn row_len(&self) -> nat {
        (self.height * 4) as nat
    }

    open spec fn spec_row(&self, x: int) -> Seq<u8> {
        transposed_row(self.image(), x)
    }

    fn fill_row(&self, x: usize, row: &mut [u8]) {
        let w: usize = self.width as usize;
        let h: usize = self.height as usize;
        let ghost img = self.image();
        let len: usize = self.pixels.len();
        let row_len: usize = row.len();
        let mut y: usize = 0;
        while y < h
            invariant
                y <= h == self.height,
                x < w == self.width,
                row_len == h * 4,
                row@.len() == h * 4,
                len == self.pixels@.len(),
                len >= self.width * self.height * 4,
                img == self.image(),
                forall|j: int| 0 <= j < y * 4 ==> row@[j] == img.channel(x as int, j / 4, j % 4),
            decreases h - y,
        {
            proof {
                lemma_cell_in_bounds(w as int, h as int, x as int, y as int);
            }
            let src: usize = (y * w + x) * 4;
            let dst: usize = y * 4;
            row[dst] = self.pixels[src];
            row[dst + 1] = self.pixels[src + 1];
            row[dst + 2] = self.pixels[src + 2];
            row[dst + 3] = self.pixels[src + 3];
            y += 1;
        }
    }
}

/// Writes to `dest` the pixels of the transposed image, its rows in parallel.
pub fn transpose_pixels(width: u32, height: u32, pixels: &[u8], dest: &mut [u8])
    requires
        pixels@.len() >= width * height * 4,
        old(dest)@.len() == width * height * 4,
    ensures
        final(dest)@.len() == old(dest)@.len(),
        final(dest)@ == transposed(image_view(width, height, pixels@)).pixels,
{
    let ghost img = image_view(width, height, pixels@);
    let len: usize = dest.len();
    if width == 0 || height == 0 {
        proof {
            assert(width * height * 4 == 0) by (nonlinear_arith)
                requires
                    width == 0 || height == 0,
            ;
            assert(width * (height * 4) == 0) by (nonlinear_arith)
                requires
                    width == 0 || height == 0,
            ;
        }
        return ;
    }
    proof {
        assert(width * height * 4 == width * (height * 4)) by (nonlinear_arith);
        assert(height * 4 <= width * (height * 4)) by (nonlinear_arith)
            requires
                width >= 1,
        ;
    }
    let kernel = TransposeRows { width, height, pixels };
    let row_len: usize = height as usize * 4;
    par_fill_rows_exact(dest, row_len, &kernel);
    proof {
        lemma_rows_determine(dest@, row_len as nat, width as nat, |x: int| kernel.spec_row(x));
    }
}

} // verus!
