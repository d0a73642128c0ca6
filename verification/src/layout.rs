//! Layout engine: places a grid of bands onto a window.
//!
//! The window is divided into equal bands along each axis. The anchor of band
//! `i` out of `count` sits near the band's far edge, at
//! `(count - 0.35 - i) * (dimension / count)`; the `0.35` is a fixed visual
//! offset, not derived from content. All arithmetic is carried out in
//! integers, in hundredths of a band, so the anchor is
//! `(100 * count - 35 - 100 * i) * dimension / (100 * count)`.
//!
//! Anchors decrease as the band index grows: band 0 sits at the far edge of
//! the window (columns are laid out right to left, rows top to bottom).
//! Anchors are purely geometric; centering rendered text on an anchor is the
//! host's concern.

use vstd::prelude::*;

verus! {

use vstd::arithmetic::div_mod::{
    lemma_div_by_self, lemma_div_is_ordered, lemma_div_multiples_vanish, lemma_div_pos_is_pos,
    lemma_fundamental_div_mod, lemma_mod_division_less_than_divisor,
};
use vstd::arithmetic::mul::{
    lemma_mul_inequality, lemma_mul_is_distributive_sub, lemma_mul_nonnegative,
};

/// Largest window dimension, in pixels, that the layout arithmetic accepts;
/// it keeps every intermediate product comfortably inside `u64`.
pub const MAX_DIM: u64 = 1_000_000;

/// Anchor coordinate of band `i` when a window `dim` pixels across is split
/// into `count` equal bands.
pub open spec fn band_anchor_spec(dim: int, count: int, i: int) -> int
    recommends
        1 <= count,
        0 <= i < count,
{
    ((100 * count - 35 - 100 * i) * dim) / (100 * count)
}

/// The anchor of any band lies inside the window.
pub proof fn lemma_band_anchor_in_range(dim: int, count: int, i: int)
    requires
        1 <= count,
        0 <= i < count,
        0 <= dim,
    ensures
        0 <= band_anchor_spec(dim, count, i) <= dim,
{
    let d = 100 * count;
    let f = 100 * count - 35 - 100 * i;
    let n = f * dim;
    assert(0 < f <= d);
    lemma_mul_nonnegative(f, dim);
    lemma_div_pos_is_pos(n, d);
    lemma_mul_inequality(f, d, dim);
    lemma_div_is_ordered(n, d * dim, d);
    lemma_div_multiples_vanish(dim, d);
}

/// Between two adjacent bands the anchors differ by at least one band width,
/// provided each band is at least one pixel wide.
proof fn lemma_band_anchor_gap(dim: int, count: int, i: int)
    requires
        1 <= count <= dim,
        0 <= i,
        i + 1 < count,
    ensures
        band_anchor_spec(dim, count, i + 1) + dim / count <= band_anchor_spec(dim, count, i),
{
    let d = 100 * count;
    let n1 = (100 * count - 35 - 100 * i) * dim;
    let n2 = (100 * count - 35 - 100 * (i + 1)) * dim;
    let a1 = n1 / d;
    let a2 = n2 / d;
    let q = dim / count;
    let s = dim % count;
    assert(n1 - n2 == 100 * dim) by (nonlinear_arith)
        requires
            n1 == (100 * count - 35 - 100 * i) * dim,
            n2 == (100 * count - 35 - 100 * (i + 1)) * dim,
    ;
    lemma_fundamental_div_mod(n1, d);
    lemma_fundamental_div_mod(n2, d);
    lemma_mod_division_less_than_divisor(n1, d);
    lemma_mod_division_less_than_divisor(n2, d);
    lemma_fundamental_div_mod(dim, count);
    lemma_mod_division_less_than_divisor(dim, count);
    assert(100 * dim == d * q + 100 * s) by (nonlinear_arith)
        requires
            dim == count * q + s,
            d == 100 * count,
    ;
    lemma_mul_is_distributive_sub(d, a1, a2);
    assert(d * (a1 - a2) > d * (q - 1)) by (nonlinear_arith)
        requires
            d * a1 == n1 - n1 % d,
            d * a2 == n2 - n2 % d,
            d * (a1 - a2) == d * a1 - d * a2,
            n1 - n2 == 100 * dim,
            0 <= n1 % d < d,
            0 <= n2 % d < d,
            100 * dim == d * q + 100 * s,
            0 <= s,
    ;
    assert(a1 - a2 > q - 1) by (nonlinear_arith)
        requires
            d * (a1 - a2) > d * (q - 1),
            d > 0,
    ;
}

/// Anchors strictly decrease as the band index grows, and any two bands'
/// anchors are at least one band width apart, provided each band is at least
/// one pixel wide.
pub proof fn lemma_band_anchors_decrease(dim: int, count: int, i: int, j: int)
    requires
        1 <= count <= dim,
        0 <= i < j < count,
    ensures
        band_anchor_spec(dim, count, j) + dim / count <= band_anchor_spec(dim, count, i),
        band_anchor_spec(dim, count, j) < band_anchor_spec(dim, count, i),
    decreases j - i,
{
    lemma_div_by_self(count);
    lemma_div_is_ordered(count, dim, count);
    assert(dim / count >= 1);
    if j == i + 1 {
        lemma_band_anchor_gap(dim, count, i);
    } else {
        lemma_band_anchors_decrease(dim, count, i + 1, j);
        lemma_band_anchor_gap(dim, count, i);
    }
}

/// Anchor coordinate of band `i` out of `count` across a window `dim` pixels
/// wide, in window coordinates.
pub fn band_anchor(dim: u64, count: u64, i: u64) -> (a: u64)
    requires
        1 <= count <= MAX_DIM,
        dim <= MAX_DIM,
        i < count,
    ensures
        a == band_anchor_spec(dim as int, count as int, i as int),
        a <= dim,
{
    proof {
        lemma_band_anchor_in_range(dim as int, count as int, i as int);
        assert((100 * count - 35 - 100 * i) * dim <= (100 * count) * dim) by (nonlinear_arith)
            requires
                i < count,
                0 <= dim,
        ;
        assert((100 * (count as int)) * (dim as int) <= 100_000_000_000_000) by (nonlinear_arith)
            requires
                count <= 1_000_000,
                dim <= 1_000_000,
        ;
        assert((100 * count - 35 - 100 * i) * dim >= 0) by (nonlinear_arith)
            requires
                i < count,
                0 <= dim,
        ;
    }
    let num: u64 = (100 * count - 35 - 100 * i) * dim;
    let den: u64 = 100 * count;
    num / den
}

/// The computed positions for a grid: one anchor per column, one per row, and
/// a position for the title. All coordinates are window coordinates; callers
/// recenter them as needed.
pub struct Layout {
    /// Horizontal anchor of each column, rightmost column first.
    pub col_x: Vec<u64>,
    /// Vertical anchor of each row, topmost row first.
    pub row_y: Vec<u64>,
    /// Horizontal position of the title: the window's midline.
    pub title_x: u64,
    /// Vertical position of the title: the topmost row's anchor.
    pub title_y: u64,
}

/// Computes the anchors for a `cols` by `rows` grid of bands on a window of
/// `width` by `height` pixels. Callers pass at least one band per axis.
pub fn layout(width: u64, height: u64, cols: u64, rows: u64) -> (lo: Layout)
    requires
        1 <= cols <= MAX_DIM,
        1 <= rows <= MAX_DIM,
        width <= MAX_DIM,
        height <= MAX_DIM,
    ensures
        lo.col_x@.len() == cols,
        lo.row_y@.len() == rows,
        forall|i: int|
            0 <= i < cols ==> #[trigger] lo.col_x@[i] == band_anchor_spec(
                width as int,
                cols as int,
                i,
            ),
        forall|j: int|
            0 <= j < rows ==> #[trigger] lo.row_y@[j] == band_anchor_spec(
                height as int,
                rows as int,
                j,
            ),
        lo.title_x == width / 2,
        lo.title_y == band_anchor_spec(height as int, rows as int, 0),
{
    let mut col_x: Vec<u64> = Vec::new();
    let mut i: u64 = 0;
    while i < cols
        invariant
            i <= cols,
            1 <= cols <= MAX_DIM,
            width <= MAX_DIM,
            col_x@.len() == i,
            forall|k: int|
                0 <= k < i ==> #[trigger] col_x@[k] == band_anchor_spec(
                    width as int,
                    cols as int,
                    k,
                ),
        decreases cols - i,
    {
        let a = band_anchor(width, cols, i);
        col_x.push(a);
        i = i + 1;
    }
    let mut row_y: Vec<u64> = Vec::new();
    let mut j: u64 = 0;
    while j < rows
        invariant
            j <= rows,
            1 <= rows <= MAX_DIM,
            height <= MAX_DIM,
            row_y@.len() == j,
            forall|k: int|
                0 <= k < j ==> #[trigger] row_y@[k] == band_anchor_spec(
                    height as int,
                    rows as int,
                    k,
                ),
        decreases rows - j,
    {
        let a = band_anchor(height, rows, j);
        row_y.push(a);
        j = j + 1;
    }
    let title_y = band_anchor(height, rows, 0);
    Layout { col_x, row_y, title_x: width / 2, title_y }
}

} // verus!
