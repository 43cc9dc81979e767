//! Seams: connected paths from the top row of an image to its bottom row,
//! one pixel in each row.
//!
//! The seam to remove ends at the cheapest pixel of the bottom row, the
//! leftmost one if several are equally cheap, and climbs from there along
//! the parent map. No seam of the image has less total energy.

use vstd::prelude::*;

use crate::cost::best_parent;
use crate::cost::cost_field;
use crate::cost::lemma_best_parent;
use crate::cost::min_cost;
use crate::cost::parent_field;
use crate::model::index_ints;
use crate::model::ints;
use crate::model::lemma_cell_coordinates;
use crate::model::lemma_cell_in_bounds;
use crate::model::lemma_index_is_cell;
use crate::model::signed_ints;

verus! {

/// The index of the least item of `s`, the first one if several are least;
/// zero for an empty sequence.
pub open spec fn first_min_index(s: Seq<int>) -> int
    decreases s.len(),
{
    if s.len() <= 1 {
        0
    } else {
        let before = first_min_index(s.drop_last());
        if s.last() < s[before] {
            s.len() - 1
        } else {
            before
        }
    }
}

/// The last row of a field of `h` rows of `w` items.
pub open spec fn bottom_row(field: Seq<int>, w: int, h: int) -> Seq<int> {
    field.subrange((h - 1) * w, h * w)
}

/// The column in which the path that ends in column `end` of the bottom row
/// crosses row `y`, following the parent map upwards.
pub open spec fn seam_column(parents: Seq<int>, w: int, h: int, end: int, y: int) -> int
    decreases h - y,
{
    if y >= h - 1 {
        end
    } else {
        parents[(y + 1) * w + seam_column(parents, w, h, end, y + 1)]
    }
}

/// The path that ends in column `end` of the bottom row, as one column for
/// each row from the top.
pub open spec fn traced_seam(parents: Seq<int>, w: int, h: int, end: int) -> Seq<int> {
    Seq::new(h as nat, |y: int| seam_column(parents, w, h, end, y))
}

/// The seam of least total energy in the field `e` of energies.
pub open spec fn min_seam(e: Seq<int>, w: int, h: int) -> Seq<int> {
    traced_seam(
        parent_field(e, w, h),
        w,
        h,
        first_min_index(bottom_row(cost_field(e, w, h), w, h)),
    )
}

/// Below the top row, every entry of the parent map names a column of the
/// image that is at most one step away from the entry's own column.
pub open spec fn parents_connected(parents: Seq<int>, w: int, h: int) -> bool {
    forall|i: int|
        w <= i < w * h ==> 0 <= #[trigger] parents[i] < w && i % w - 1 <= parents[i] <= i % w + 1
}

/// `s` is a seam of an image of `w` columns and `h` rows: it names one
/// column of the image for each row, and the columns of neighbouring rows
/// are at most one step apart.
pub open spec fn is_seam(s: Seq<int>, w: int, h: int) -> bool {
    &&& s.len() == h
    &&& forall|y: int| 0 <= y < h ==> 0 <= #[trigger] s[y] < w
    &&& forall|y: int| #![trigger s[y]] 1 <= y < h ==> -1 <= s[y] - s[y - 1] <= 1
}

/// The total energy of the pixels of `s` in rows `0` to `y`.
pub open spec fn path_energy(e: Seq<int>, w: int, s: Seq<int>, y: int) -> int
    decreases y + 1,
{
    if y < 0 {
        0
    } else {
        path_energy(e, w, s, y - 1) + e[y * w + s[y]]
    }
}

/// The total energy of the pixels of `s`.
pub open spec fn seam_energy(e: Seq<int>, w: int, s: Seq<int>) -> int {
    path_energy(e, w, s, s.len() - 1)
}

/// `first_min_index` names a least item, and every item before it is greater.
pub proof fn lemma_first_min_index(s: Seq<int>)
    requires
        s.len() > 0,
    ensures
        0 <= first_min_index(s) < s.len(),
        forall|j: int| 0 <= j < s.len() ==> s[first_min_index(s)] <= #[trigger] s[j],
        forall|j: int| 0 <= j < first_min_index(s) ==> s[first_min_index(s)] < #[trigger] s[j],
    decreases s.len(),
{
    if s.len() > 1 {
        let t = s.drop_last();
        lemma_first_min_index(t);
        let before = first_min_index(t);
        assert forall|j: int| 0 <= j < s.len() implies s[first_min_index(s)] <= #[trigger] s[j] by {
            if j < t.len() {
                assert(t[j] == s[j]);
            }
        }
        assert forall|j: int| 0 <= j < first_min_index(s) implies s[first_min_index(s)]
            < #[trigger] s[j] by {
            assert(t[j] == s[j]);
        }
    }
}

/// A path traced through a connected parent map stays inside the image.
pub proof fn lemma_seam_column_in_range(parents: Seq<int>, w: int, h: int, end: int, y: int)
    requires
        0 <= end < w,
        0 <= y < h,
        parents_connected(parents, w, h),
    ensures
        0 <= seam_column(parents, w, h, end, y) < w,
        y < h - 1 ==> -1 <= seam_column(parents, w, h, end, y + 1) - seam_column(
            parents,
            w,
            h,
            end,
            y,
        ) <= 1,
    decreases h - y,
{
    if y < h - 1 {
        lemma_seam_column_in_range(parents, w, h, end, y + 1);
        let below = seam_column(parents, w, h, end, y + 1);
        lemma_cell_in_bounds(w, h, below, y + 1);
        lemma_cell_coordinates(w, below, y + 1);
        assert((y + 1) * w >= w) by (nonlinear_arith)
            requires
                y >= 0,
                w > 0,
        ;
    }
}

/// A path traced through a connected parent map is a seam.
pub proof fn lemma_traced_seam_is_seam(parents: Seq<int>, w: int, h: int, end: int)
    requires
        0 <= h,
        0 < h ==> 0 <= end < w,
        parents_connected(parents, w, h),
    ensures
        is_seam(traced_seam(parents, w, h, end), w, h),
{
    let s = traced_seam(parents, w, h, end);
    assert forall|y: int| 0 <= y < h implies 0 <= #[trigger] s[y] < w by {
        lemma_seam_column_in_range(parents, w, h, end, y);
    }
    assert forall|y: int| #![trigger s[y]] 1 <= y < h implies -1 <= s[y] - s[y - 1] <= 1 by {
        lemma_seam_column_in_range(parents, w, h, end, y - 1);
    }
}

/// The parent map of any field of energies is connected.
pub proof fn lemma_parent_field_connected(e: Seq<int>, w: int, h: int)
    requires
        0 < w,
        0 <= h,
    ensures
        parents_connected(parent_field(e, w, h), w, h),
{
    let parents = parent_field(e, w, h);
    assert forall|i: int| w <= i < w * h implies 0 <= #[trigger] parents[i] < w && i % w - 1
        <= parents[i] <= i % w + 1 by {
        lemma_index_is_cell(w, h, i);
        let y = i / w;
        if y < 1 {
            assert(y * w == 0) by (nonlinear_arith)
                requires
                    y == 0,
            ;
        }
        lemma_best_parent(e, w, i % w, y);
    }
}

/// Seam validity: the seam of least energy has one column for each row of
/// the image, every column lies inside the image, and the columns of
/// neighbouring rows are at most one step apart.
pub proof fn lemma_min_seam_is_seam(e: Seq<int>, w: int, h: int)
    requires
        0 < w,
        0 <= h,
    ensures
        is_seam(min_seam(e, w, h), w, h),
{
    lemma_parent_field_connected(e, w, h);
    let bottom = bottom_row(cost_field(e, w, h), w, h);
    if h > 0 {
        lemma_cell_in_bounds(w, h, 0, h - 1);
        lemma_first_min_index(bottom);
    }
    lemma_traced_seam_is_seam(parent_field(e, w, h), w, h, first_min_index(bottom));
}

/// No path down to a pixel of a seam is cheaper than the cost of that pixel.
pub proof fn lemma_cost_is_lower_bound(e: Seq<int>, w: int, h: int, s: Seq<int>, y: int)
    requires
        0 < w,
        is_seam(s, w, h),
        0 <= y < h,
    ensures
        min_cost(e, w, s[y], y) <= path_energy(e, w, s, y),
    decreases y,
{
    if y == 0 {
        assert(path_energy(e, w, s, -1) == 0);
    } else {
        lemma_cost_is_lower_bound(e, w, h, s, y - 1);
        lemma_best_parent(e, w, s[y], y);
    }
}

/// Along the seam of least energy, the energy of the path down to each of
/// its pixels is the cost of that pixel.
pub proof fn lemma_min_seam_costs(e: Seq<int>, w: int, h: int, y: int)
    requires
        0 < w,
        0 <= y < h,
    ensures
        path_energy(e, w, min_seam(e, w, h), y) == min_cost(e, w, min_seam(e, w, h)[y], y),
    decreases y,
{
    let s = min_seam(e, w, h);
    lemma_min_seam_is_seam(e, w, h);
    if y == 0 {
        assert(path_energy(e, w, s, -1) == 0);
        assert(0 * w + s[0] == s[0]);
    } else {
        lemma_min_seam_costs(e, w, h, y - 1);
        lemma_cell_in_bounds(w, h, s[y], y);
        lemma_cell_coordinates(w, s[y], y);
        assert(y * w >= w) by (nonlinear_arith)
            requires
                y >= 1,
                w > 0,
        ;
        // the seam climbs from each of its pixels to the parent of that pixel
        assert(s[y - 1] == best_parent(e, w, s[y], y));
    }
}

/// The seam that is removed is a seam of least total energy: no seam of the
/// image weighs less.
pub proof fn lemma_min_seam_is_optimal(e: Seq<int>, w: int, h: int, s: Seq<int>)
    requires
        0 < w,
        0 < h,
        e.len() == w * h,
        is_seam(s, w, h),
    ensures
        is_seam(min_seam(e, w, h), w, h),
        seam_energy(e, w, min_seam(e, w, h)) <= seam_energy(e, w, s),
{
    let bottom = bottom_row(cost_field(e, w, h), w, h);
    let end = first_min_index(bottom);
    lemma_min_seam_is_seam(e, w, h);
    lemma_min_seam_costs(e, w, h, h - 1);
    lemma_cost_is_lower_bound(e, w, h, s, h - 1);
    lemma_cell_in_bounds(w, h, 0, h - 1);
    lemma_first_min_index(bottom);
    let last = s[h - 1];
    lemma_cell_in_bounds(w, h, last, h - 1);
    lemma_cell_in_bounds(w, h, end, h - 1);
    lemma_cell_coordinates(w, last, h - 1);
    lemma_cell_coordinates(w, end, h - 1);
    // the seam ends at the cheapest pixel of the bottom row
    assert(bottom[end] <= bottom[last]);
}

/// Finds the end of the cheapest seam in the bottom row of the cost field
/// and follows the parent map from there to the top row.
pub fn extract_seam(width: u32, height: u32, costs: &[u64], parents: &[i64], seam: &mut [usize])
    requires
        width >= 1,
        costs@.len() == width * height,
        parents@.len() == width * height,
        old(seam)@.len() == height,
        parents_connected(signed_ints(parents@), width as int, height as int),
    ensures
        final(seam)@.len() == old(seam)@.len(),
        index_ints(final(seam)@) == traced_seam(
            signed_ints(parents@),
            width as int,
            height as int,
            first_min_index(bottom_row(ints(costs@), width as int, height as int)),
        ),
        is_seam(index_ints(final(seam)@), width as int, height as int),
{
    let w: usize = width as usize;
    let h: usize = height as usize;
    let ghost wi = w as int;
    let ghost hi = h as int;
    let ghost links = signed_ints(parents@);
    let ghost bottom = bottom_row(ints(costs@), wi, hi);
    let ghost end = first_min_index(bottom);
    if h == 0 {
        return ;
    }
    proof {
        lemma_cell_in_bounds(wi, hi, 0, hi - 1);
    }
    let len: usize = costs.len();
    let last: usize = (h - 1) * w;
    let mut best: usize = 0;
    let mut x: usize = 1;
    while x < w
        invariant
            1 <= x <= w,
            wi == w,
            hi == h,
            last == (hi - 1) * wi,
            last + wi == hi * wi,
            len == wi * hi,
            costs@.len() == wi * hi,
            bottom == bottom_row(ints(costs@), wi, hi),
            0 <= best < x,
            best == first_min_index(bottom.take(x as int)),
        decreases w - x,
    {
        proof {
            assert(bottom.take(x + 1).drop_last() =~= bottom.take(x as int));
        }
        if costs[last + x] < costs[last + best] {
            best = x;
        }
        x += 1;
    }
    proof {
        assert(bottom.take(w as int) =~= bottom);
        lemma_traced_seam_is_seam(links, wi, hi, end);
    }
    let mut y: usize = h - 1;
    let mut column: usize = best;
    seam[y] = column;
    while y > 0
        invariant
            0 < w == width,
            wi == w,
            hi == h,
            y < h,
            column < w,
            len == wi * hi,
            parents@.len() == wi * hi,
            seam@.len() == hi,
            links == signed_ints(parents@),
            parents_connected(links, wi, hi),
            0 <= end < wi,
            column == seam_column(links, wi, hi, end, y as int),
            forall|r: int| y <= r < hi ==> seam@[r] == seam_column(links, wi, hi, end, r),
        decreases y,
    {
        proof {
            lemma_cell_in_bounds(wi, hi, column as int, y as int);
            lemma_cell_coordinates(wi, column as int, y as int);
            assert(y * wi >= wi) by (nonlinear_arith)
                requires
                    y >= 1,
                    wi > 0,
            ;
            assert(links[y * wi + column] == parents@[y * wi + column]);
        }
        column = parents[y * w + column] as usize;
        y -= 1;
        seam[y] = column;
    }
    proof {
        assert(index_ints(seam@) =~= traced_seam(links, wi, hi, end));
    }
}

} // verus!
