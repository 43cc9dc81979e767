//! Row-parallel filling of row-major buffers on the rayon thread pool.
//!
//! The rows of a buffer are independent of one another: a [`RowKernel`]
//! says what each row holds and fills one row at a time; the functions here
//! hand the rows of a buffer to rayon, one task per row.

use rayon::iter::IndexedParallelIterator;
use rayon::iter::ParallelIterator;
use rayon::slice::ParallelSliceMut;
use vstd::prelude::*;

verus! {

/// A description of a buffer of `rows()` rows of `row_len()` items, together
/// with the code that writes any one of its rows.
pub(crate) trait RowKernel<T> {
    /// The kernel's inputs are consistent with one another.
    spec fn wf(&self) -> bool;

    /// The number of rows.
    spec fn rows(&self) -> nat;

    /// The number of items in each row.
    spec fn row_len(&self) -> nat;

    /// What row `y` holds once it is filled.
    spec fn spec_row(&self, y: int) -> Seq<T>;

    /// Overwrites `row` with row `y`.
    fn fill_row(&self, y: usize, row: &mut [T])
        requires
            self.wf(),
            y < self.rows(),
            old(row)@.len() == self.row_len(),
        ensures
            final(row)@ == self.spec_row(y as int),
    ;
}

/// Fills every row of `dest` through
/// `rayon::slice::ParallelSliceMut::par_chunks_mut`, followed by `enumerate`
/// and `for_each` of rayon's parallel iterators.
///
/// Not proved, but taken from rayon: `dest` is cut into consecutive chunks
/// of `row_len` items that do not overlap, chunk number `y` is handed to
/// `fill_row` together with `y` exactly once, and the call returns when all
/// rows are done. So row `y` of `dest` ends as the kernel's row `y`.
#[verifier::external_body]
pub(crate) fn par_fill_rows<T: Send, K: RowKernel<T> + Sync>(
    dest: &mut [T],
    row_len: usize,
    kernel: &K,
)
    requires
        row_len > 0,
        kernel.wf(),
        kernel.row_len() == row_len,
        old(dest)@.len() == kernel.rows() * row_len,
    ensures
        final(dest)@.len() == old(dest)@.len(),
        forall|y: int|
            0 <= y < kernel.rows() ==> #[trigger] final(dest)@.subrange(
                y * row_len,
                (y + 1) * row_len,
            ) == kernel.spec_row(y),
{
    dest.par_chunks_mut(row_len).enumerate().for_each(|(y, row)| kernel.fill_row(y, row));
}

/// Fills every row of `dest` through
/// `rayon::slice::ParallelSliceMut::par_chunks_exact_mut`, followed by
/// `enumerate` and `for_each` of rayon's parallel iterators.
///
/// Not proved, but taken from rayon: `dest` is cut into consecutive chunks
/// of exactly `row_len` items that do not overlap, chunk number `y` is
/// handed to `fill_row` together with `y` exactly once, and the call returns
/// when all rows are done. So row `y` of `dest` ends as the kernel's row `y`.
#[verifier::external_body]
pub(crate) fn par_fill_rows_exact<T: Send, K: RowKernel<T> + Sync>(
    dest: &mut [T],
    row_len: usize,
    kernel: &K,
)
    requires
        row_len > 0,
        kernel.wf(),
        kernel.row_len() == row_len,
        old(dest)@.len() == kernel.rows() * row_len,
    ensures
        final(dest)@.len() == old(dest)@.len(),
        forall|y: int|
            0 <= y < kernel.rows() ==> #[trigger] final(dest)@.subrange(
                y * row_len,
                (y + 1) * row_len,
            ) == kernel.spec_row(y),
{
    dest.par_chunks_exact_mut(row_len).enumerate().for_each(|(y, row)| kernel.fill_row(y, row));
}

} // verus!
