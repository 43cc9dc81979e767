//! The cheapest way down to every pixel.
//!
//! The cost of a pixel is the least total energy of a connected path that
//! starts anywhere in the top row and ends at that pixel. Costs are found
//! row by row: each pixel adds its own energy to the cheapest of the (up
//! to) three pixels above it, and remembers which one that was.

use vstd::prelude::*;

use crate::model::ints;
use crate::model::lemma_cell_coordinates;
use crate::model::lemma_cell_in_bounds;
use crate::model::signed_ints;

verus! {

/// What the parent map holds for the top row, where paths start.
pub const NO_PARENT: i64 = -1;

/// The least total energy of a path from the top row down to `(x, y)`, in
/// the field `e` of rows of `w` energies.
pub open spec fn min_cost(e: Seq<int>, w: int, x: int, y: int) -> int
    decreases y, 1int,
{
    if y <= 0 {
        e[x]
    } else {
        e[y * w + x] + min_cost(e, w, best_parent(e, w, x, y), y - 1)
    }
}

/// The column in row `y - 1` through which the cheapest path to `(x, y)`
/// comes. Of the candidates `x`, `x - 1` and `x + 1`, as far as they exist,
/// the cheapest wins; among equals the first in this order wins.
pub open spec fn best_parent(e: Seq<int>, w: int, x: int, y: int) -> int
    decreases y, 0int,
{
    if y <= 0 {
        x
    } else {
        let straight = min_cost(e, w, x, y - 1);
        let first = if x > 0 && min_cost(e, w, x - 1, y - 1) < straight {
            x - 1
        } else {
            x
        };
        if x < w - 1 && min_cost(e, w, x + 1, y - 1) < min_cost(e, w, first, y - 1) {
            x + 1
        } else {
            first
        }
    }
}

/// The cost of every pixel, row by row.
pub open spec fn cost_field(e: Seq<int>, w: int, h: int) -> Seq<int> {
    Seq::new((w * h) as nat, |i: int| min_cost(e, w, i % w, i / w))
}

/// The parent of every pixel, row by row; the top row has none.
pub open spec fn parent_field(e: Seq<int>, w: int, h: int) -> Seq<int> {
    Seq::new(
        (w * h) as nat,
        |i: int|
            if i < w {
                NO_PARENT as int
            } else {
                best_parent(e, w, i % w, i / w)
            },
    )
}

/// Every energy of the field is a natural number that fits in 32 bits.
pub open spec fn energies_bounded(e: Seq<int>) -> bool {
    forall|i: int| 0 <= i < e.len() ==> 0 <= #[trigger] e[i] <= u32::MAX
}

/// The parent of a pixel is one of the pixels above it and touching it, and
/// no other of these is cheaper.
pub proof fn lemma_best_parent(e: Seq<int>, w: int, x: int, y: int)
    requires
        0 <= x < w,
        1 <= y,
    ensures
        0 <= best_parent(e, w, x, y) < w,
        x - 1 <= best_parent(e, w, x, y) <= x + 1,
        forall|c: int|
            0 <= c < w && x - 1 <= c <= x + 1 ==> min_cost(e, w, best_parent(e, w, x, y), y - 1)
                <= #[trigger] min_cost(e, w, c, y - 1),
{
}

/// The order of preference among the pixels above: the one straight above
/// wins unless another is strictly cheaper; the one to the left wins over
/// the one to the right unless that one is strictly cheaper.
pub proof fn lemma_parent_tie_break(e: Seq<int>, w: int, x: int, y: int)
    requires
        0 <= x < w,
        1 <= y,
    ensures
        best_parent(e, w, x, y) == x <==> (x > 0 ==> min_cost(e, w, x, y - 1) <= min_cost(
            e,
            w,
            x - 1,
            y - 1,
        )) && (x < w - 1 ==> min_cost(e, w, x, y - 1) <= min_cost(e, w, x + 1, y - 1)),
        best_parent(e, w, x, y) == x - 1 <==> x > 0 && min_cost(e, w, x - 1, y - 1) < min_cost(
            e,
            w,
            x,
            y - 1,
        ) && (x < w - 1 ==> min_cost(e, w, x - 1, y - 1) <= min_cost(e, w, x + 1, y - 1)),
        best_parent(e, w, x, y) == x + 1 <==> x < w - 1 && min_cost(e, w, x + 1, y - 1) < min_cost(
            e,
            w,
            x,
            y - 1,
        ) && (x > 0 ==> min_cost(e, w, x + 1, y - 1) < min_cost(e, w, x - 1, y - 1)),
{
}

/// A cost is a natural number, and each row adds at most one energy to it.
pub proof fn lemma_min_cost_bounds(e: Seq<int>, w: int, h: int, x: int, y: int)
    requires
        e.len() == w * h,
        energies_bounded(e),
        0 <= x < w,
        0 <= y < h,
    ensures
        0 <= min_cost(e, w, x, y) <= (y + 1) * u32::MAX,
    decreases y,
{
    lemma_cell_in_bounds(w, h, x, y);
    if y > 0 {
        lemma_best_parent(e, w, x, y);
        lemma_min_cost_bounds(e, w, h, best_parent(e, w, x, y), y - 1);
        assert((y + 1) * u32::MAX == y * u32::MAX + u32::MAX) by (nonlinear_arith);
    }
}

/// A cost fits in 64 bits as long as the image has fewer than 2^32 rows.
pub proof fn lemma_min_cost_fits(e: Seq<int>, w: int, h: int, x: int, y: int)
    requires
        e.len() == w * h,
        energies_bounded(e),
        0 <= x < w,
        0 <= y < h <= u32::MAX,
    ensures
        0 <= min_cost(e, w, x, y) <= u64::MAX,
{
    lemma_min_cost_bounds(e, w, h, x, y);
    assert((y + 1) * u32::MAX <= u64::MAX) by (nonlinear_arith)
        requires
            0 <= y < u32::MAX,
    ;
}

/// Turns a field of energies into the field of costs, in place, and fills
/// the parent map. The rows are taken in order from the top; the top row's
/// costs are its energies.
pub fn accumulate_costs(width: u32, height: u32, field: &mut [u64], parents: &mut [i64])
    requires
        old(field)@.len() == width * height,
        old(parents)@.len() == width * height,
        forall|i: int| 0 <= i < old(field)@.len() ==> old(field)@[i] <= u32::MAX,
    ensures
        final(field)@.len() == old(field)@.len(),
        final(parents)@.len() == old(parents)@.len(),
        ints(final(field)@) == cost_field(ints(old(field)@), width as int, height as int),
        signed_ints(final(parents)@) == parent_field(
            ints(old(field)@),
            width as int,
            height as int,
        ),
{
    let w: usize = width as usize;
    let h: usize = height as usize;
    let ghost e0 = ints(field@);
    let ghost wi = w as int;
    let ghost hi = h as int;
    let len: usize = field.len();
    if w == 0 || h == 0 {
        proof {
            assert(wi * hi == 0) by (nonlinear_arith)
                requires
                    wi == 0 || hi == 0,
            ;
        }
        return ;
    }
    proof {
        lemma_cell_in_bounds(wi, hi, 0, 0);
    }
    let mut x: usize = 0;
    while x < w
        invariant
            x <= w <= parents@.len() == wi * hi,
            forall|i: int| 0 <= i < x ==> parents@[i] == NO_PARENT,
        decreases w - x,
    {
        parents[x] = NO_PARENT;
        x += 1;
    }
    proof {
        assert forall|i: int| 0 <= i < wi implies field@[i] == min_cost(e0, wi, i % wi, i / wi) by {
            lemma_cell_coordinates(wi, i, 0);
        }
    }
    let mut y: usize = 1;
    while y < h
        invariant
            0 < w == width,
            0 < h == height,
            wi == w,
            hi == h,
            1 <= y <= h,
            len == wi * hi,
            field@.len() == wi * hi,
            parents@.len() == wi * hi,
            e0.len() == wi * hi,
            energies_bounded(e0),
            forall|i: int| 0 <= i < y * wi ==> field@[i] == min_cost(e0, wi, i % wi, i / wi),
            forall|i: int| y * wi <= i < wi * hi ==> field@[i] == e0[i],
            forall|i: int| 0 <= i < y * wi ==> parents@[i] == parent_field(e0, wi, hi)[i],
        decreases h - y,
    {
        proof {
            lemma_cell_in_bounds(wi, hi, 0, y as int);
            lemma_cell_in_bounds(wi, hi, 0, y - 1);
        }
        let row: usize = y * w;
        let above: usize = row - w;
        let mut x: usize = 0;
        while x < w
            invariant
                0 < w == width,
                0 < h == height,
                wi == w,
                hi == h,
                1 <= y < h,
                x <= w,
                row == y * wi,
                above == row - wi,
                row + wi <= wi * hi,
                field@.len() == wi * hi,
                parents@.len() == wi * hi,
                e0.len() == wi * hi,
                energies_bounded(e0),
                forall|i: int| 0 <= i < row + x ==> field@[i] == min_cost(e0, wi, i % wi, i / wi),
                forall|i: int| row + x <= i < wi * hi ==> field@[i] == e0[i],
                forall|i: int| 0 <= i < row + x ==> parents@[i] == parent_field(e0, wi, hi)[i],
            decreases w - x,
        {
            proof {
                lemma_cell_coordinates(wi, x as int, y as int);
                lemma_cell_coordinates(wi, x as int, y - 1);
                assert((y - 1) * wi == row - wi) by (nonlinear_arith)
                    requires
                        row == y * wi,
                ;
            }
            let mut least: u64 = field[above + x];
            let mut parent: usize = x;
            if x > 0 {
                proof {
                    lemma_cell_coordinates(wi, x - 1, y - 1);
                }
                let left: u64 = field[above + x - 1];
                if left < least {
                    least = left;
                    parent = x - 1;
                }
            }
            if x < w - 1 {
                proof {
                    lemma_cell_coordinates(wi, x + 1, y - 1);
                }
                let right: u64 = field[above + x + 1];
                if right < least {
                    least = right;
                    parent = x + 1;
                }
            }
            proof {
                assert(parent == best_parent(e0, wi, x as int, y as int));
                lemma_min_cost_fits(e0, wi, hi, x as int, y as int);
            }
            field[row + x] = field[row + x] + least;
            parents[row + x] = parent as i64;
            x += 1;
        }
        proof {
            assert((y + 1) * wi == row + wi) by (nonlinear_arith)
                requires
                    row == y * wi,
            ;
        }
        y += 1;
    }
    proof {
        assert(y * wi == wi * hi) by (nonlinear_arith)
            requires
                y == hi,
        ;
    }
}

} // verus!
