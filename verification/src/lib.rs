//! Content-aware image resizing by seam carving.
//!
//! An image shrinks by one column or one row at a time: what goes is the
//! seam, the connected path of pixels from one edge of the image to the
//! opposite one, whose total energy is least. One removal runs four stages:
//!
//! 1. [`energy`]: the energy of every pixel, from the brightness around it;
//! 2. [`cost`]: the cost of the cheapest path from the top row down to
//!    every pixel, and the parent through which that path comes;
//! 3. [`seam`]: the seam that ends at the cheapest pixel of the bottom row;
//! 4. [`compact`]: the image without the pixels of that seam.
//!
//! A horizontal seam is the vertical seam of the transposed image
//! ([`transpose`]). [`SeamCarver`] holds an image and runs the stages on it.
//!
//! Every stage works on integers, energies being fixed-point numbers, so
//! the seam chosen for an image is the same on every machine. The rows of
//! an image are independent in stages 1 and 4 and in transposing; they are
//! filled in parallel.

pub mod carver;
pub mod compact;
pub mod cost;
pub mod energy;
pub mod model;
mod parallel;
pub mod seam;
pub mod transpose;

pub use carver::ImageError;
pub use carver::SeamCarver;
