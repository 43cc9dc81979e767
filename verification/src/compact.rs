//! Removing a seam: every row loses the one pixel that the seam names in
//! it, and what stood right of that pixel moves one pixel to the left.

use vstd::prelude::*;

use crate::model::image_view;
use crate::model::index_ints;
use crate::model::lemma_cell_in_bounds;
use crate::model::lemma_rows_concat_row;
use crate::model::lemma_rows_determine;
use crate::model::rows_concat;
use crate::model::ImageView;
use crate::parallel::par_fill_rows_exact;
use crate::parallel::RowKernel;

verus! {

/// A row of pixels without its pixel number `x`: what stands before the
/// pixel, followed by what stands after it.
pub open spec fn without_pixel(row: Seq<u8>, x: int) -> Seq<u8> {
    row.subrange(0, x * 4) + row.subrange((x + 1) * 4, row.len() as int)
}

/// The image without the pixels of `seam`: one column narrower, each row
/// `y` without its pixel number `seam[y]`.
pub open spec fn without_seam(img: ImageView, seam: Seq<int>) -> ImageView {
    ImageView {
        width: (img.width - 1) as nat,
        height: img.height,
        pixels: rows_concat(
            ((img.width - 1) * 4) as nat,
            img.height,
            |y: int| without_pixel(img.row(y), seam[y]),
        ),
    }
}

/// `seam` names one column of the image for each of its rows.
pub open spec fn seam_in_image(seam: Seq<int>, w: int, h: int) -> bool {
    &&& seam.len() == h
    &&& forall|y: int| 0 <= y < h ==> 0 <= #[trigger] seam[y] < w
}

/// Removing a seam leaves a well-formed image that is one column narrower
/// and as high as before.
pub proof fn lemma_without_seam_wf(img: ImageView, seam: Seq<int>)
    requires
        img.width >= 1,
    ensures
        without_seam(img, seam).wf(),
        without_seam(img, seam).width == img.width - 1,
        without_seam(img, seam).height == img.height,
{
    let w = img.width as int;
    let h = img.height as int;
    assert(((w - 1) * 4) * h == (w - 1) * h * 4) by (nonlinear_arith);
    assert(h * ((w - 1) * 4) == (w - 1) * h * 4) by (nonlinear_arith);
}

/// Pixel conservation: each row of the narrower image is one pixel shorter,
/// and the row of the wider image is the row of the narrower image with the
/// four bytes of the seam's pixel put back in their place.
pub proof fn lemma_without_seam_row(img: ImageView, seam: Seq<int>, y: int)
    requires
        img.wf(),
        seam_in_image(seam, img.width as int, img.height as int),
        0 <= y < img.height,
    ensures
        without_seam(img, seam).row(y) == without_pixel(img.row(y), seam[y]),
        without_seam(img, seam).row(y).len() == (img.width - 1) * 4,
        img.row(y) == without_seam(img, seam).row(y).subrange(0, seam[y] * 4) + img.row(
            y,
        ).subrange(seam[y] * 4, (seam[y] + 1) * 4) + without_seam(img, seam).row(y).subrange(
            seam[y] * 4,
            (img.width - 1) * 4,
        ),
{
    lemma_row_len(img, y);
    lemma_rows_concat_row(
        ((img.width - 1) * 4) as nat,
        img.height,
        |r: int| without_pixel(img.row(r), seam[r]),
        y,
    );
}

/// Left of the seam every pixel stays where it is; from the seam on, every
/// pixel is the one that stood one column further right.
pub proof fn lemma_without_seam_pixel(img: ImageView, seam: Seq<int>, x: int, y: int, c: int)
    requires
        img.wf(),
        seam_in_image(seam, img.width as int, img.height as int),
        0 <= x < img.width - 1,
        0 <= y < img.height,
        0 <= c < 4,
    ensures
        without_seam(img, seam).channel(x, y, c) == img.channel(
            if x < seam[y] {
                x
            } else {
                x + 1
            },
            y,
            c,
        ),
{
    let w = img.width as int;
    let h = img.height as int;
    let narrow = without_seam(img, seam);
    lemma_without_seam_row(img, seam, y);
    lemma_row_len(img, y);
    lemma_cell_in_bounds((w - 1) * 4, h, x * 4 + c, y);
    assert(narrow.pixels.len() == ((w - 1) * 4) * h) by (nonlinear_arith)
        requires
            narrow.pixels.len() == h * ((w - 1) * 4),
    ;
    assert((y * (w - 1) + x) * 4 + c == y * ((w - 1) * 4) + (x * 4 + c)) by (nonlinear_arith);
    assert(narrow.channel(x, y, c) == narrow.row(y)[x * 4 + c]);
    let from = if x < seam[y] {
        x
    } else {
        x + 1
    };
    assert((y * w + from) * 4 + c == y * (w * 4) + (from * 4 + c)) by (nonlinear_arith);
    assert(img.channel(from, y, c) == img.row(y)[from * 4 + c]);
}

/// A row of a well-formed image holds four bytes for each column.
pub proof fn lemma_row_len(img: ImageView, y: int)
    requires
        img.wf(),
        0 <= y < img.height,
    ensures
        img.row(y).len() == img.width * 4,
        forall|i: int|
            0 <= i < img.width * 4 ==> #[trigger] img.row(y)[i] == img.pixels[y * (img.width * 4)
                + i],
{
    let rl = img.width * 4;
    assert(img.width * img.height * 4 == rl * img.height) by (nonlinear_arith)
        requires
            rl == img.width * 4,
    ;
    if rl > 0 {
        lemma_cell_in_bounds(rl as int, img.height as int, 0, y);
    } else {
        assert(y * rl == 0 && (y + 1) * rl == 0) by (nonlinear_arith)
            requires
                rl == 0,
        ;
    }
}

/// The rows of an image from which a seam is removed.
pub(crate) struct CompactRows<'a> {
    pub width: u32,
    pub height: u32,
    pub pixels: &'a [u8],
    pub seam: &'a [usize],
}

impl<'a> CompactRows<'a> {
    pub(crate) open spec fn image(&self) -> ImageView {
        image_view(self.width, self.height, self.pixels@)
    }
}

impl<'a> RowKernel<u8> for CompactRows<'a> {
    open spec fn wf(&self) -> bool {
        &&& self.width >= 1
        &&& self.pixels@.len() >= self.width * self.height * 4
        &&& seam_in_image(index_ints(self.seam@), self.width as int, self.height as int)
    }

    open spec fn rows(&self) -> nat {
        self.height as nat
    }

    open spec fn row_len(&self) -> nat {
        ((self.width - 1) * 4) as nat
    }

    open spec fn spec_row(&self, y: int) -> Seq<u8> {
        without_pixel(self.image().row(y), index_ints(self.seam@)[y])
    }

    fn fill_row(&self, y: usize, row: &mut [u8]) {
        let w: usize = self.width as usize;
        let ghost img = self.image();
        let ghost source = img.row(y as int);
        proof {
            lemma_row_len(img, y as int);
            lemma_cell_in_bounds(w * 4, self.height as int, 0, y as int);
            assert(self.width * self.height * 4 == (w * 4) * self.height) by (nonlinear_arith)
                requires
                    w == self.width,
            ;
            assert(index_ints(self.seam@)[y as int] == self.seam@[y as int]);
        }
        let len: usize = self.pixels.len();
        let removed: usize = self.seam[y];
        let start: usize = y * (w * 4);
        let before: usize = removed * 4;
        let row_len: usize = (w - 1) * 4;
        let mut i: usize = 0;
        while i < before
            invariant
                i <= before <= row_len,
                row@.len() == row_len,
                start + row_len + 4 <= len == self.pixels@.len(),
                source.len() == row_len + 4,
                forall|j: int| 0 <= j < source.len() ==> #[trigger] source[j] == self.pixels@[start + j],
                forall|j: int| 0 <= j < i ==> row@[j] == source[j],
            decreases before - i,
        {
            row[i] = self.pixels[start + i];
            i += 1;
        }
        while i < row_len
            invariant
                before <= i <= row_len,
                row@.len() == row_len,
                start + row_len + 4 <= len == self.pixels@.len(),
                source.len() == row_len + 4,
                forall|j: int| 0 <= j < source.len() ==> #[trigger] source[j] == self.pixels@[start + j],
                forall|j: int| 0 <= j < before ==> row@[j] == source[j],
                forall|j: int| before <= j < i ==> row@[j] == source[j + 4],
            decreases row_len - i,
        {
            row[i] = self.pixels[start + i + 4];
            i += 1;
        }
    }
}

/// Writes to `dest` the pixels of the image without the pixels of `seam`,
/// the rows in parallel.
pub fn remove_seam(width: u32, height: u32, pixels: &[u8], seam: &[usize], dest: &mut [u8])
    requires
        width >= 1,
        pixels@.len() >= width * height * 4,
        seam_in_image(index_ints(seam@), width as int, height as int),
        old(dest)@.len() == (width - 1) * height * 4,
    ensures
        final(dest)@.len() == old(dest)@.len(),
        final(dest)@ == without_seam(image_view(width, height, pixels@), index_ints(seam@)).pixels,
{
    let ghost img = image_view(width, height, pixels@);
    let ghost path = index_ints(seam@);
    let len: usize = dest.len();
    if width == 1 || height == 0 {
        proof {
            assert((width - 1) * height * 4 == 0) by (nonlinear_arith)
                requires
                    width == 1 || height == 0,
            ;
            assert(height * ((width - 1) * 4) == 0) by (nonlinear_arith)
                requires
                    width == 1 || height == 0,
            ;
        }
        return ;
    }
    proof {
        let narrow = width - 1;
        assert(narrow * height * 4 == height * (narrow * 4)) by (nonlinear_arith);
        assert(narrow * 4 <= height * (narrow * 4)) by (nonlinear_arith)
            requires
                height >= 1,
                narrow >= 0,
        ;
    }
    let kernel = CompactRows { width, height, pixels, seam };
    let row_len: usize = (width as usize - 1) * 4;
    par_fill_rows_exact(dest, row_len, &kernel);
    proof {
        lemma_rows_determine(dest@, row_len as nat, height as nat, |y: int| kernel.spec_row(y));
    }
}

} // verus!
