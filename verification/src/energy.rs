//! The energy of a pixel: the strength of the brightness edge that runs
//! through it, from the eight pixels around it.
//!
//! Brightness and energy are integers. The brightness of a pixel is the sum
//! of its red, green and blue channels, from 0 for black to 765 for white;
//! alpha does not count. The energy is the length of the gradient of that
//! brightness, in fixed point with sixteen binary places: a gradient of one
//! brightness step weighs [`ENERGY_UNIT`]. That is fine enough for any two
//! gradients of different length to have different energies.

use vstd::prelude::*;

use crate::model::image_view;
use crate::model::ints;
use crate::model::lemma_cell_in_bounds;
use crate::model::lemma_index_is_cell;
use crate::model::lemma_rows_determine;
use crate::model::ImageView;
use crate::parallel::par_fill_rows;
use crate::parallel::RowKernel;

verus! {

/// The brightness of a white pixel.
pub const MAX_BRIGHTNESS: u32 = 765;

/// The energy of a gradient of length one, that is of one step of brightness.
pub const ENERGY_UNIT: u64 = 65536;

/// `r` is the square root of `n`, rounded down.
pub open spec fn is_floor_sqrt(r: int, n: int) -> bool {
    0 <= r && r * r <= n < (r + 1) * (r + 1)
}

/// The square root of `n`, rounded down.
pub open spec fn floor_sqrt(n: int) -> int {
    choose|r: int| is_floor_sqrt(r, n)
}

/// A number has at most one rounded-down square root.
pub proof fn lemma_floor_sqrt_unique(n: int, a: int, b: int)
    requires
        is_floor_sqrt(a, n),
        is_floor_sqrt(b, n),
    ensures
        a == b,
{
    if a < b {
        assert((a + 1) * (a + 1) <= b * b) by (nonlinear_arith)
            requires
                0 <= a,
                a + 1 <= b,
        ;
    } else if b < a {
        assert((b + 1) * (b + 1) <= a * a) by (nonlinear_arith)
            requires
                0 <= b,
                b + 1 <= a,
        ;
    }
}

/// Every natural number has a rounded-down square root, and `floor_sqrt` is it.
pub proof fn lemma_floor_sqrt_exists(n: int)
    requires
        0 <= n,
    ensures
        is_floor_sqrt(floor_sqrt(n), n),
    decreases n,
{
    if n == 0 {
        assert(is_floor_sqrt(0, 0));
    } else {
        lemma_floor_sqrt_exists(n - 1);
        let r = floor_sqrt(n - 1);
        if (r + 1) * (r + 1) <= n {
            assert((r + 1) * (r + 1) < (r + 2) * (r + 2)) by (nonlinear_arith)
                requires
                    0 <= r,
            ;
            assert(is_floor_sqrt(r + 1, n));
        } else {
            assert(is_floor_sqrt(r, n));
        }
    }
}

/// Whatever passes for the rounded-down square root of `n` is `floor_sqrt(n)`.
pub proof fn lemma_floor_sqrt_is(n: int, r: int)
    requires
        is_floor_sqrt(r, n),
    ensures
        floor_sqrt(n) == r,
{
    lemma_floor_sqrt_unique(n, r, floor_sqrt(n));
}

/// The square root of `n`, rounded down.
pub fn isqrt(n: u64) -> (r: u64)
    ensures
        is_floor_sqrt(r as int, n as int),
        r == floor_sqrt(n as int),
{
    let mut lo: u64 = 0;
    let mut hi: u64 = 0x1_0000_0000;
    while hi - lo > 1
        invariant
            lo < hi <= 0x1_0000_0000,
            lo * lo <= n < hi * hi,
        decreases hi - lo,
    {
        let mid: u64 = lo + (hi - lo) / 2;
        assert(mid * mid <= 0xffff_ffff * 0xffff_ffff) by (nonlinear_arith)
            requires
                0 <= mid <= 0xffff_ffff,
        ;
        if mid * mid <= n {
            lo = mid;
        } else {
            hi = mid;
        }
    }
    proof {
        lemma_floor_sqrt_is(n as int, lo as int);
    }
    lo
}

/// The brightness of pixel `(x, y)`: the sum of its red, green and blue
/// channels. A pixel outside the image is black.
pub open spec fn brightness_at(img: ImageView, x: int, y: int) -> int {
    if 0 <= x < img.width && 0 <= y < img.height {
        img.channel(x, y, 0) + img.channel(x, y, 1) + img.channel(x, y, 2)
    } else {
        0
    }
}

/// The horizontal gradient at `(x, y)`: the left column of the surrounding
/// square minus the right column, the middle row weighted twice.
pub open spec fn gradient_x(img: ImageView, x: int, y: int) -> int {
    (brightness_at(img, x - 1, y - 1) + 2 * brightness_at(img, x - 1, y) + brightness_at(
        img,
        x - 1,
        y + 1,
    )) - (brightness_at(img, x + 1, y - 1) + 2 * brightness_at(img, x + 1, y) + brightness_at(
        img,
        x + 1,
        y + 1,
    ))
}

/// The vertical gradient at `(x, y)`: the upper row of the surrounding
/// square minus the lower row, the middle column weighted twice.
pub open spec fn gradient_y(img: ImageView, x: int, y: int) -> int {
    (brightness_at(img, x - 1, y - 1) + 2 * brightness_at(img, x, y - 1) + brightness_at(
        img,
        x + 1,
        y - 1,
    )) - (brightness_at(img, x - 1, y + 1) + 2 * brightness_at(img, x, y + 1) + brightness_at(
        img,
        x + 1,
        y + 1,
    ))
}

/// The square of the length of the gradient at `(x, y)`.
pub open spec fn gradient_square(img: ImageView, x: int, y: int) -> int {
    gradient_x(img, x, y) * gradient_x(img, x, y) + gradient_y(img, x, y) * gradient_y(img, x, y)
}

/// The energy at `(x, y)`: the length of the gradient, in units of
/// `1 / ENERGY_UNIT`, rounded down.
pub open spec fn energy_at(img: ImageView, x: int, y: int) -> int {
    floor_sqrt(gradient_square(img, x, y) * (ENERGY_UNIT * ENERGY_UNIT))
}

/// The energy of every pixel of the image, row by row.
pub open spec fn energy_field(img: ImageView) -> Seq<int> {
    Seq::new(
        img.width * img.height,
        |i: int| energy_at(img, i % img.width as int, i / img.width as int),
    )
}

/// Brightness lies between black and white.
pub proof fn lemma_brightness_bounds(img: ImageView, x: int, y: int)
    ensures
        0 <= brightness_at(img, x, y) <= MAX_BRIGHTNESS,
{
}

/// Energy is a natural number that fits in 32 bits.
pub proof fn lemma_energy_bounds(img: ImageView, x: int, y: int)
    ensures
        0 <= energy_at(img, x, y) <= u32::MAX,
{
    let gx = gradient_x(img, x, y);
    let gy = gradient_y(img, x, y);
    lemma_gradient_bounds(img, x, y);
    lemma_scaled_square_bounds(gx, gy);
    let n = gradient_square(img, x, y) * (ENERGY_UNIT * ENERGY_UNIT);
    lemma_floor_sqrt_exists(n);
    let e = floor_sqrt(n);
    assert(e <= u32::MAX) by (nonlinear_arith)
        requires
            0 <= e,
            e * e <= n,
            n <= 18727200 * 0x1_0000_0000,
    ;
}

/// Each gradient is at most four times the brightness of a white pixel.
pub proof fn lemma_gradient_bounds(img: ImageView, x: int, y: int)
    ensures
        -4 * MAX_BRIGHTNESS <= gradient_x(img, x, y) <= 4 * MAX_BRIGHTNESS,
        -4 * MAX_BRIGHTNESS <= gradient_y(img, x, y) <= 4 * MAX_BRIGHTNESS,
{
    lemma_brightness_bounds(img, x - 1, y - 1);
    lemma_brightness_bounds(img, x - 1, y);
    lemma_brightness_bounds(img, x - 1, y + 1);
    lemma_brightness_bounds(img, x, y - 1);
    lemma_brightness_bounds(img, x, y + 1);
    lemma_brightness_bounds(img, x + 1, y - 1);
    lemma_brightness_bounds(img, x + 1, y);
    lemma_brightness_bounds(img, x + 1, y + 1);
}

/// The radicand of an energy fits in 64 bits.
proof fn lemma_scaled_square_bounds(gx: int, gy: int)
    by (nonlinear_arith)
    requires
        -3060 <= gx <= 3060,
        -3060 <= gy <= 3060,
    ensures
        0 <= gx * gx <= 9363600,
        0 <= gy * gy <= 9363600,
        0 <= (gx * gx + gy * gy) * (65536 * 65536) <= 18727200 * 0x1_0000_0000,
{
}

/// The fixed point is fine enough to tell any two gradients apart: the
/// longer gradient has the greater energy, whatever is lost in rounding.
pub proof fn lemma_energy_orders_gradients(
    img1: ImageView,
    x1: int,
    y1: int,
    img2: ImageView,
    x2: int,
    y2: int,
)
    requires
        gradient_square(img1, x1, y1) < gradient_square(img2, x2, y2),
    ensures
        energy_at(img1, x1, y1) < energy_at(img2, x2, y2),
{
    let n1 = gradient_square(img1, x1, y1);
    let n2 = gradient_square(img2, x2, y2);
    let unit = ENERGY_UNIT * ENERGY_UNIT;
    let e1 = energy_at(img1, x1, y1);
    let e2 = energy_at(img2, x2, y2);
    lemma_energy_bounds(img1, x1, y1);
    lemma_energy_bounds(img2, x2, y2);
    assert(0 <= n1) by (nonlinear_arith)
        requires
            n1 == gradient_x(img1, x1, y1) * gradient_x(img1, x1, y1) + gradient_y(img1, x1, y1)
                * gradient_y(img1, x1, y1),
    ;
    assert(0 <= n1 * unit && n1 * unit + unit <= n2 * unit) by (nonlinear_arith)
        requires
            0 <= n1 < n2,
            unit == 65536 * 65536,
    ;
    lemma_floor_sqrt_exists(n1 * unit);
    lemma_floor_sqrt_exists(n2 * unit);
    lemma_gradient_bounds(img1, x1, y1);
    lemma_scaled_square_bounds(gradient_x(img1, x1, y1), gradient_y(img1, x1, y1));
    assert(e1 < 0x8000_0000) by (nonlinear_arith)
        requires
            0 <= e1,
            e1 * e1 <= n1 * unit,
            n1 * unit <= 18727200 * 0x1_0000_0000,
    ;
    // one more than the lesser energy is still no more than the root of the greater square
    assert((e1 + 1) * (e1 + 1) == e1 * e1 + 2 * e1 + 1) by (nonlinear_arith);
    assert((e1 + 1) * (e1 + 1) <= n2 * unit);
    if e2 <= e1 {
        assert((e2 + 1) * (e2 + 1) <= (e1 + 1) * (e1 + 1)) by (nonlinear_arith)
            requires
                0 <= e2 <= e1,
        ;
    }
}

/// A pixel that is an image by itself has no energy: all that surrounds it
/// lies outside the image.
pub proof fn lemma_lone_pixel_has_no_energy(img: ImageView)
    requires
        img.width == 1,
        img.height == 1,
    ensures
        energy_at(img, 0, 0) == 0,
{
    assert(gradient_y(img, 0, 0) == 0);
    assert(gradient_square(img, 0, 0) == 0);
    lemma_floor_sqrt_is(0, 0);
}

/// The brightness of the pixel whose red channel is `pixels[idx]`.
pub fn get_brightness(pixels: &[u8], idx: usize) -> (b: u32)
    requires
        idx + 2 < pixels@.len(),
    ensures
        b == pixels@[idx as int] + pixels@[idx + 1] + pixels@[idx + 2],
        b <= MAX_BRIGHTNESS,
{
    let r: u32 = pixels[idx] as u32;
    let g: u32 = pixels[idx + 1] as u32;
    let b: u32 = pixels[idx + 2] as u32;
    r + g + b
}

/// The brightness of pixel `(x, y)`, zero where `(x, y)` lies outside the image.
pub fn get_pixel_brightness(width: u32, height: u32, pixels: &[u8], x: i64, y: i64) -> (b: u32)
    requires
        pixels@.len() >= width * height * 4,
    ensures
        b == brightness_at(image_view(width, height, pixels@), x as int, y as int),
        b <= MAX_BRIGHTNESS,
{
    if x < 0 || x >= width as i64 || y < 0 || y >= height as i64 {
        return 0;
    }
    proof {
        lemma_cell_in_bounds(width as int, height as int, x as int, y as int);
        assert(pixels@.len() == pixels.len());
    }
    let idx: usize = (y as usize * width as usize + x as usize) * 4;
    get_brightness(pixels, idx)
}

/// The energy of pixel `(x, y)`.
pub fn energy(width: u32, height: u32, pixels: &[u8], x: u32, y: u32) -> (e: u64)
    requires
        pixels@.len() >= width * height * 4,
    ensures
        e == energy_at(image_view(width, height, pixels@), x as int, y as int),
        e <= u32::MAX,
{
    let x: i64 = x as i64;
    let y: i64 = y as i64;

    let left_up: i64 = get_pixel_brightness(width, height, pixels, x - 1, y - 1) as i64;
    let left: i64 = get_pixel_brightness(width, height, pixels, x - 1, y) as i64;
    let left_down: i64 = get_pixel_brightness(width, height, pixels, x - 1, y + 1) as i64;

    let right_up: i64 = get_pixel_brightness(width, height, pixels, x + 1, y - 1) as i64;
    let right: i64 = get_pixel_brightness(width, height, pixels, x + 1, y) as i64;
    let right_down: i64 = get_pixel_brightness(width, height, pixels, x + 1, y + 1) as i64;

    let up: i64 = get_pixel_brightness(width, height, pixels, x, y - 1) as i64;
    let down: i64 = get_pixel_brightness(width, height, pixels, x, y + 1) as i64;

    let gx: i64 = (left_up + 2 * left + left_down) - (right_up + 2 * right + right_down);
    let gy: i64 = (left_up + 2 * up + right_up) - (left_down + 2 * down + right_down);

    proof {
        lemma_scaled_square_bounds(gx as int, gy as int);
        lemma_energy_bounds(image_view(width, height, pixels@), x as int, y as int);
    }
    let square: u64 = (gx * gx + gy * gy) as u64;
    isqrt(square * (ENERGY_UNIT * ENERGY_UNIT))
}

/// The rows of an energy field.
pub(crate) struct EnergyRows<'a> {
    pub width: u32,
    pub height: u32,
    pub pixels: &'a [u8],
}

impl<'a> EnergyRows<'a> {
    pub(crate) open spec fn image(&self) -> ImageView {
        image_view(self.width, self.height, self.pixels@)
    }
}

impl<'a> RowKernel<u64> for EnergyRows<'a> {
    open spec fn wf(&self) -> bool {
        self.pixels@.len() >= self.width * self.height * 4
    }

    open spec fn rows(&self) -> nat {
        self.height as nat
    }

    open spec fn row_len(&self) -> nat {
        self.width as nat
    }

    open spec fn spec_row(&self, y: int) -> Seq<u64> {
        Seq::new(self.width as nat, |x: int| energy_at(self.image(), x, y) as u64)
    }

    fn fill_row(&self, y: usize, row: &mut [u64]) {
        let mut x: usize = 0;
        while x < row.len()
            invariant
                self.wf(),
                y < self.height,
                row@.len() == self.width,
                x <= row@.len(),
                forall|j: int| 0 <= j < x ==> row@[j] == energy_at(self.image(), j, y as int),
            decreases row@.len() - x,
        {
            row[x] = energy(self.width, self.height, self.pixels, x as u32, y as u32);
            x += 1;
        }
    }
}

/// Computes the energy of every pixel, the rows in parallel.
pub fn compute_energies(width: u32, height: u32, pixels: &[u8], energies: &mut [u64])
    requires
        pixels@.len() >= width * height * 4,
        old(energies)@.len() == width * height,
    ensures
        final(energies)@.len() == old(energies)@.len(),
        ints(final(energies)@) == energy_field(image_view(width, height, pixels@)),
        forall|i: int| 0 <= i < final(energies)@.len() ==> final(energies)@[i] <= u32::MAX,
{
    let ghost img = image_view(width, height, pixels@);
    if width == 0 {
        assert(width * height == 0) by (nonlinear_arith)
            requires
                width == 0,
        ;
        return ;
    }
    let kernel = EnergyRows { width, height, pixels };
    proof {
        assert(width * height == height * width) by (nonlinear_arith);
    }
    par_fill_rows(energies, width as usize, &kernel);
    proof {
        lemma_rows_determine(
            energies@,
            width as nat,
            height as nat,
            |y: int| kernel.spec_row(y),
        );
        assert forall|i: int| 0 <= i < energies@.len() implies #[trigger] energies@[i]
            == energy_field(img)[i] && energies@[i] <= u32::MAX by {
            lemma_index_is_cell(width as int, height as int, i);
            lemma_energy_bounds(img, i % (width as int), i / (width as int));
        }
        assert(ints(energies@) =~= energy_field(img));
    }
}

} // verus!
