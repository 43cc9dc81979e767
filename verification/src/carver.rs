//! The seam carver: an image that shrinks by one column or one row at a
//! time, and the buffers that it reuses from one removal to the next.

use vstd::prelude::*;
use vstd::slice::slice_subrange;

use crate::compact::lemma_without_seam_wf;
use crate::compact::remove_seam;
use crate::compact::without_seam;
use crate::cost::accumulate_costs;
use crate::energy::compute_energies;
use crate::energy::energy_field;
use crate::model::image_view;
use crate::model::index_ints;
use crate::model::ints;
use crate::model::ImageView;
use crate::seam::extract_seam;
use crate::seam::lemma_parent_field_connected;
use crate::seam::min_seam;
use crate::transpose::lemma_transpose_involution;
use crate::transpose::lemma_transposed_wf;
use crate::transpose::transpose_pixels;
use crate::transpose::transposed;

verus! {

/// Why an image was not accepted.
#[derive(Clone, Copy, Debug, PartialEq, Eq, Structural)]
pub enum ImageError {
    /// The pixel data holds fewer than `width * height * 4` bytes.
    BufferTooShort,
}

/// The image after the removal of its vertical seam of least energy; the
/// image itself where it is at most one column wide.
pub open spec fn carved_vertically(img: ImageView) -> ImageView {
    if img.width <= 1 {
        img
    } else {
        without_seam(img, min_seam(energy_field(img), img.width as int, img.height as int))
    }
}

/// The image after the removal of its horizontal seam of least energy: the
/// vertical seam of the transposed image.
pub open spec fn carved_horizontally(img: ImageView) -> ImageView {
    transposed(carved_vertically(transposed(img)))
}

/// The image after one removal.
pub open spec fn carved(img: ImageView, vertical: bool) -> ImageView {
    if vertical {
        carved_vertically(img)
    } else {
        carved_horizontally(img)
    }
}

/// Dimension monotonicity and no-op floor, for columns: removing a vertical
/// seam takes one column from an image that has more than one and leaves
/// its height alone; it leaves any other image as it is.
pub proof fn lemma_carved_vertically(img: ImageView)
    requires
        img.wf(),
    ensures
        carved_vertically(img).wf(),
        carved_vertically(img).height == img.height,
        img.width > 1 ==> carved_vertically(img).width == img.width - 1,
        img.width <= 1 ==> carved_vertically(img) == img,
{
    if img.width > 1 {
        lemma_without_seam_wf(
            img,
            min_seam(energy_field(img), img.width as int, img.height as int),
        );
    }
}

/// Dimension monotonicity and no-op floor, for rows: removing a horizontal
/// seam takes one row from an image that has more than one and leaves its
/// width alone; it leaves any other image as it is.
pub proof fn lemma_carved_horizontally(img: ImageView)
    requires
        img.wf(),
    ensures
        carved_horizontally(img).wf(),
        carved_horizontally(img).width == img.width,
        img.height > 1 ==> carved_horizontally(img).height == img.height - 1,
        img.height <= 1 ==> carved_horizontally(img) == img,
{
    lemma_transposed_wf(img);
    lemma_carved_vertically(transposed(img));
    lemma_transposed_wf(carved_vertically(transposed(img)));
    if img.height <= 1 {
        lemma_transpose_involution(img);
    }
}

/// The number of bytes of an image of the given dimensions, if a buffer can
/// be that long.
fn pixel_bytes(width: u32, height: u32) -> (n: Option<usize>)
    ensures
        n matches Some(bytes) ==> bytes == width * height * 4,
        n is None <==> width * height * 4 > usize::MAX,
{
    assert(width * height <= 0xffff_ffff * 0xffff_ffff) by (nonlinear_arith);
    let bytes: u128 = width as u128 * height as u128 * 4;
    if bytes > usize::MAX as u128 {
        None
    } else {
        Some(bytes as usize)
    }
}

/// The pixels of an image with its dimensions.
struct Image {
    width: u32,
    height: u32,
    pixels: Vec<u8>,
}

impl Image {
    #[verifier::type_invariant]
    spec fn wf(self) -> bool {
        self.pixels@.len() == self.width * self.height * 4
    }

    spec fn model(self) -> ImageView {
        ImageView { width: self.width as nat, height: self.height as nat, pixels: self.pixels@ }
    }
}

/// An image together with the scratch buffers of seam removal.
///
/// The carver owns its pixels. A removal writes the smaller image into a
/// second pixel buffer and then makes that buffer the image; the buffer
/// that held the image becomes the second buffer of the next removal.
pub struct SeamCarver {
    image: Image,
    temp_pixels: Vec<u8>,
    energies: Vec<u64>,
    parents: Vec<i64>,
    seam: Vec<usize>,
}

impl View for SeamCarver {
    type V = ImageView;

    closed spec fn view(&self) -> ImageView {
        self.image.model()
    }
}

impl SeamCarver {
    /// Makes a carver for the image of the given dimensions whose pixels are
    /// the first `width * height * 4` bytes of `data`. The bytes are copied.
    pub fn new(width: u32, height: u32, data: &[u8]) -> (r: Result<SeamCarver, ImageError>)
        ensures
            data@.len() >= width * height * 4 ==> (r matches Ok(carver) && carver@ == image_view(
                width,
                height,
                data@,
            ) && carver@.wf()),
            data@.len() < width * height * 4 ==> (r matches Err(e) && e
                == ImageError::BufferTooShort),
    {
        let given: usize = data.len();
        let bytes: usize = match pixel_bytes(width, height) {
            Some(bytes) => bytes,
            None => {
                return Err(ImageError::BufferTooShort);
            },
        };
        if given < bytes {
            return Err(ImageError::BufferTooShort);
        }
        let pixels: Vec<u8> = vstd::slice::slice_to_vec(slice_subrange(data, 0, bytes));
        let pixel_count: usize = bytes / 4;
        let mut temp_pixels: Vec<u8> = Vec::new();
        let mut energies: Vec<u64> = Vec::new();
        let mut parents: Vec<i64> = Vec::new();
        let mut seam: Vec<usize> = Vec::new();
        let _ = temp_pixels.try_reserve(bytes);
        let _ = energies.try_reserve(pixel_count);
        let _ = parents.try_reserve(pixel_count);
        let _ = seam.try_reserve(height as usize);
        Ok(SeamCarver { image: Image { width, height, pixels }, temp_pixels, energies, parents, seam })
    }

    /// The number of columns of the image.
    pub fn width(&self) -> (w: u32)
        ensures
            w == self@.width,
            self@.wf(),
    {
        proof {
            use_type_invariant(&self.image);
        }
        self.image.width
    }

    /// The number of rows of the image.
    pub fn height(&self) -> (h: u32)
        ensures
            h == self@.height,
            self@.wf(),
    {
        proof {
            use_type_invariant(&self.image);
        }
        self.image.height
    }

    /// The pixels of the image, row by row. The slice is good until the
    /// next call that changes the image: such a call may move the pixels.
    pub fn image_ptr(&self) -> (pixels: &[u8])
        ensures
            pixels@ == self@.pixels,
            self@.wf(),
    {
        proof {
            use_type_invariant(&self.image);
        }
        self.image.pixels.as_slice()
    }

    /// Removes one seam: a vertical one, which makes the image one column
    /// narrower, or a horizontal one, which makes it one row lower. An image
    /// that has at most one column, or row, stays as it is.
    pub fn carve(&mut self, vert: bool)
        ensures
            final(self)@ == carved(old(self)@, vert),
            final(self)@.wf(),
            vert && old(self)@.width > 1 ==> {
                &&& final(self)@.width == old(self)@.width - 1
                &&& final(self)@.height == old(self)@.height
            },
            !vert && old(self)@.height > 1 ==> {
                &&& final(self)@.height == old(self)@.height - 1
                &&& final(self)@.width == old(self)@.width
            },
            vert && old(self)@.width <= 1 ==> final(self)@ == old(self)@,
            !vert && old(self)@.height <= 1 ==> final(self)@ == old(self)@,
    {
        proof {
            use_type_invariant(&self.image);
            lemma_carved_vertically(self@);
            lemma_carved_horizontally(self@);
        }
        if vert {
            self.remove_vertical_seam();
        } else {
            self.remove_horizontal_seam();
        }
    }

    /// Replaces the image by the one of the given dimensions whose pixels
    /// are the first `width * height * 4` bytes of `data`. The buffers of
    /// the carver are kept and grown where they are too small. Where `data`
    /// is too short, the carver stays as it is.
    pub fn reset(&mut self, width: u32, height: u32, data: &[u8]) -> (r: Result<(), ImageError>)
        ensures
            data@.len() >= width * height * 4 ==> r is Ok && final(self)@ == image_view(
                width,
                height,
                data@,
            ),
            data@.len() < width * height * 4 ==> r == Err::<(), ImageError>(
                ImageError::BufferTooShort,
            ) && final(self)@ == old(self)@,
            final(self)@.wf(),
    {
        proof {
            use_type_invariant(&self.image);
        }
        let given: usize = data.len();
        let bytes: usize = match pixel_bytes(width, height) {
            Some(bytes) => bytes,
            None => {
                return Err(ImageError::BufferTooShort);
            },
        };
        if given < bytes {
            return Err(ImageError::BufferTooShort);
        }
        let mut image = Image { width: 0, height: 0, pixels: Vec::new() };
        std::mem::swap(&mut image, &mut self.image);
        let mut pixels: Vec<u8> = image.pixels;
        pixels.clear();
        pixels.extend_from_slice(slice_subrange(data, 0, bytes));
        self.image = Image { width, height, pixels };
        let pixel_count: usize = bytes / 4;
        self.temp_pixels.clear();
        self.energies.clear();
        self.parents.clear();
        self.seam.clear();
        let _ = self.temp_pixels.try_reserve(bytes);
        let _ = self.energies.try_reserve(pixel_count);
        let _ = self.parents.try_reserve(pixel_count);
        let _ = self.seam.try_reserve(height as usize);
        Ok(())
    }

    /// Removes the vertical seam of least energy: finds the energy of every
    /// pixel, the cost of the cheapest path down to every pixel, and the
    /// cheapest seam; then closes every row over the pixel that the seam
    /// names in it. An image of at most one column stays as it is.
    pub fn remove_vertical_seam(&mut self)
        ensures
            final(self)@ == carved_vertically(old(self)@),
            final(self)@.wf(),
    {
        proof {
            use_type_invariant(&self.image);
            lemma_carved_vertically(self@);
        }
        let width: u32 = self.image.width;
        let height: u32 = self.image.height;
        if width <= 1 {
            return ;
        }
        let ghost img = self@;
        let ghost wi = width as int;
        let ghost hi = height as int;
        let bytes: usize = self.image.pixels.len();
        proof {
            assert(img =~= image_view(width, height, self.image.pixels@));
            assert((wi - 1) * hi * 4 <= wi * hi * 4) by (nonlinear_arith)
                requires
                    0 <= hi,
            ;
            assert(0 <= (wi - 1) * hi) by (nonlinear_arith)
                requires
                    0 <= hi,
                    1 <= wi,
            ;
        }
        let w: usize = width as usize;
        let h: usize = height as usize;
        let len: usize = bytes / 4;

        self.energies.resize(len, 0);
        self.parents.resize(len, 0);
        self.seam.resize(h, 0);

        compute_energies(
            width,
            height,
            self.image.pixels.as_slice(),
            self.energies.as_mut_slice(),
        );
        let ghost e = ints(self.energies@);
        accumulate_costs(width, height, self.energies.as_mut_slice(), self.parents.as_mut_slice());
        proof {
            lemma_parent_field_connected(e, wi, hi);
        }
        extract_seam(
            width,
            height,
            self.energies.as_slice(),
            self.parents.as_slice(),
            self.seam.as_mut_slice(),
        );
        assert(index_ints(self.seam@) == min_seam(energy_field(img), wi, hi));

        let new_len: usize = (w - 1) * h * 4;
        self.temp_pixels.resize(new_len, 0);
        remove_seam(
            width,
            height,
            self.image.pixels.as_slice(),
            self.seam.as_slice(),
            self.temp_pixels.as_mut_slice(),
        );

        let mut pixels: Vec<u8> = Vec::new();
        std::mem::swap(&mut pixels, &mut self.temp_pixels);
        let mut image = Image { width: width - 1, height, pixels };
        std::mem::swap(&mut image, &mut self.image);
        self.temp_pixels = image.pixels;
    }

    /// Removes the horizontal seam of least energy: the vertical seam of
    /// the transposed image.
    pub fn remove_horizontal_seam(&mut self)
        ensures
            final(self)@ == carved_horizontally(old(self)@),
            final(self)@.wf(),
    {
        self.transpose();
        self.remove_vertical_seam();
        self.transpose();
    }

    /// Transposes the image: its rows become its columns.
    pub fn transpose(&mut self)
        ensures
            final(self)@ == transposed(old(self)@),
            final(self)@.wf(),
    {
        proof {
            use_type_invariant(&self.image);
            lemma_transposed_wf(self@);
        }
        let width: u32 = self.image.width;
        let height: u32 = self.image.height;
        let ghost img = self@;
        let bytes: usize = self.image.pixels.len();
        proof {
            assert(img =~= image_view(width, height, self.image.pixels@));
            assert(height * width * 4 == width * height * 4) by (nonlinear_arith);
        }
        self.temp_pixels.resize(bytes, 0);
        transpose_pixels(
            width,
            height,
            self.image.pixels.as_slice(),
            self.temp_pixels.as_mut_slice(),
        );
        let mut pixels: Vec<u8> = Vec::new();
        std::mem::swap(&mut pixels, &mut self.temp_pixels);
        let mut image = Image { width: height, height: width, pixels };
        std::mem::swap(&mut image, &mut self.image);
        self.temp_pixels = image.pixels;
    }
}

} // verus!
