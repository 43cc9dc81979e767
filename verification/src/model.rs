//! The mathematical model of an image and of row-major buffers.

use vstd::prelude::*;

verus! {

/// An RGBA image: `width * height` pixels of four bytes each, stored row by
/// row, so that channel `c` of pixel `(x, y)` is byte `(y * width + x) * 4 + c`.
#[verifier::ext_equal]
pub struct ImageView {
    pub width: nat,
    pub height: nat,
    pub pixels: Seq<u8>,
}

impl ImageView {
    /// The buffer holds exactly the pixels of the image.
    pub open spec fn wf(self) -> bool {
        self.pixels.len() == self.width * self.height * 4
    }

    /// The bytes of row `y`.
    pub open spec fn row(self, y: int) -> Seq<u8> {
        self.pixels.subrange(y * (self.width * 4), (y + 1) * (self.width * 4))
    }

    /// Channel `c` of pixel `(x, y)`.
    pub open spec fn channel(self, x: int, y: int, c: int) -> u8 {
        self.pixels[(y * self.width + x) * 4 + c]
    }
}

/// The image of the given dimensions over the first `width * height * 4`
/// bytes of `pixels`.
pub open spec fn image_view(width: u32, height: u32, pixels: Seq<u8>) -> ImageView {
    ImageView {
        width: width as nat,
        height: height as nat,
        pixels: pixels.subrange(0, width * height * 4),
    }
}

/// The buffer made of `rows` rows of `row_len` items each, row `y` being `f(y)`.
pub open spec fn rows_concat<T>(row_len: nat, rows: nat, f: spec_fn(int) -> Seq<T>) -> Seq<T> {
    Seq::new(rows * row_len, |i: int| f(i / row_len as int)[i % row_len as int])
}

/// A sequence of unsigned machine integers read as mathematical integers.
pub open spec fn ints(s: Seq<u64>) -> Seq<int> {
    Seq::new(s.len(), |i: int| s[i] as int)
}

/// A sequence of signed machine integers read as mathematical integers.
pub open spec fn signed_ints(s: Seq<i64>) -> Seq<int> {
    Seq::new(s.len(), |i: int| s[i] as int)
}

/// A sequence of indices read as mathematical integers.
pub open spec fn index_ints(s: Seq<usize>) -> Seq<int> {
    Seq::new(s.len(), |i: int| s[i] as int)
}

/// Column `x` of row `y` lies inside a row-major buffer of `h` rows of `w` items.
pub proof fn lemma_cell_in_bounds(w: int, h: int, x: int, y: int)
    by (nonlinear_arith)
    requires
        0 <= x < w,
        0 <= y < h,
    ensures
        0 <= y * w <= y * w + x < (y + 1) * w <= w * h,
        (y + 1) * w == y * w + w,
{
}

/// A row-major index determines its row and column.
pub proof fn lemma_cell_coordinates(w: int, x: int, y: int)
    requires
        0 <= x < w,
    ensures
        (y * w + x) / w == y,
        (y * w + x) % w == x,
{
    vstd::arithmetic::div_mod::lemma_fundamental_div_mod_converse(y * w + x, w, y, x);
}

/// Every index below `w * h` is the row-major index of a cell of the grid.
pub proof fn lemma_index_is_cell(w: int, h: int, i: int)
    requires
        0 < w,
        0 <= i < w * h,
    ensures
        0 <= i % w < w,
        0 <= i / w < h,
        i == (i / w) * w + i % w,
{
    vstd::arithmetic::div_mod::lemma_fundamental_div_mod(i, w);
    vstd::arithmetic::div_mod::lemma_mod_bound(i, w);
    let q = i / w;
    let r = i % w;
    assert(q * w == w * q) by (nonlinear_arith);
    assert(0 <= q < h) by (nonlinear_arith)
        requires
            i == w * q + r,
            0 <= r < w,
            0 <= i < w * h,
            0 < w,
    ;
}

/// A buffer whose rows are known is the concatenation of those rows.
pub proof fn lemma_rows_determine<T>(
    buf: Seq<T>,
    row_len: nat,
    rows: nat,
    f: spec_fn(int) -> Seq<T>,
)
    requires
        row_len > 0,
        buf.len() == rows * row_len,
        forall|y: int|
            0 <= y < rows ==> #[trigger] buf.subrange(y * row_len, (y + 1) * row_len) == f(y),
    ensures
        buf == rows_concat(row_len, rows, f),
{
    let rl = row_len as int;
    assert forall|i: int| 0 <= i < buf.len() implies buf[i] == rows_concat(row_len, rows, f)[i] by {
        assert(rows * row_len == rl * rows) by (nonlinear_arith)
            requires
                rl == row_len,
        ;
        lemma_index_is_cell(rl, rows as int, i);
        let y = i / rl;
        let x = i % rl;
        lemma_cell_in_bounds(rl, rows as int, x, y);
        assert(buf.subrange(y * row_len, (y + 1) * row_len) == f(y));
        assert(buf.subrange(y * row_len, (y + 1) * row_len)[x] == buf[y * row_len + x]);
    }
}

/// Row `y` of a concatenation of rows of equal length is the row it was built from.
pub proof fn lemma_rows_concat_row<T>(
    row_len: nat,
    rows: nat,
    f: spec_fn(int) -> Seq<T>,
    y: int,
)
    requires
        0 <= y < rows,
        f(y).len() == row_len,
    ensures
        rows_concat(row_len, rows, f).subrange(y * row_len, (y + 1) * row_len) == f(y),
{
    let rl = row_len as int;
    let buf = rows_concat(row_len, rows, f);
    if row_len > 0 {
        assert(rows * row_len == rl * rows) by (nonlinear_arith)
            requires
                rl == row_len,
        ;
        lemma_cell_in_bounds(rl, rows as int, 0, y);
        let row = buf.subrange(y * rl, (y + 1) * rl);
        assert forall|x: int| 0 <= x < rl implies #[trigger] row[x] == f(y)[x] by {
            lemma_cell_in_bounds(rl, rows as int, x, y);
            lemma_cell_coordinates(rl, x, y);
        }
    } else {
        assert(y * rl == 0 && (y + 1) * rl == 0) by (nonlinear_arith)
            requires
                rl == 0,
        ;
        assert(rows * row_len == 0) by (nonlinear_arith)
            requires
                row_len == 0,
        ;
    }
}

} // verus!
