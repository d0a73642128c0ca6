//! The board and its interaction state machine.
//!
//! A board is built once from a loaded quiz and a window size: one tile and
//! one value label per clue, a header label per category, and a title. The
//! board then answers clicks. In idle mode a click is hit-tested against the
//! unrevealed tiles in creation order; the first hit reveals that tile for
//! good, hides every value label and opens the clue overlay. While a clue is
//! showing, any click dismisses the overlay and restores the labels of the
//! tiles that are still unrevealed; labels of revealed tiles stay hidden.
//!
//! All coordinates are board-centered: window coordinates shifted left and
//! down by half the window, so tiles and labels share one frame. Tile `k`
//! sits at column `k / rows` (counted from the window's right edge) and row
//! `k % rows`; two extra vertical bands above the grid hold the title and
//! the category headers.

use vstd::prelude::*;

verus! {

use vstd::arithmetic::div_mod::{
    lemma_basic_div, lemma_fundamental_div_mod, lemma_fundamental_div_mod_converse,
    lemma_div_is_ordered, lemma_div_multiples_vanish, lemma_mod_division_less_than_divisor,
    lemma_multiply_divide_lt,
};
use vstd::arithmetic::mul::lemma_mul_is_commutative;
use vstd::string::StringExecFns;

use crate::digits::dec_digits;
use crate::digits::dec_string;
use crate::layout::{band_anchor_spec, lemma_band_anchor_in_range, lemma_band_anchors_decrease};
use crate::layout::{layout, MAX_DIM};
use crate::quiz::Quiz;

/// Largest grid size, per axis, that the board accepts.
pub const MAX_GRID: usize = 1000;

/// One clickable board cell: grid position, bounding box (center and
/// half-extents, board-centered), and whether its clue has been shown. The
/// tile's clue is the one at board index `col * rows + row`.
#[derive(Clone, Copy, PartialEq, Eq, Structural)]
pub struct Tile {
    pub col: usize,
    pub row: usize,
    pub cx: i64,
    pub cy: i64,
    pub half_w: i64,
    pub half_h: i64,
    pub revealed: bool,
}

/// A positioned text entity: the title, a category header, or a tile's value
/// text. Hidden labels keep their place; only `visible` changes.
pub struct Label {
    pub x: i64,
    pub y: i64,
    pub text: String,
    pub visible: bool,
}

/// The transient clue display: exists exactly while a clue is being read.
/// The host draws it as a panel covering the board with this text on top.
pub struct ClueOverlay {
    pub text: String,
}

/// What the board is doing between clicks.
#[derive(Clone, Copy, PartialEq, Eq, Structural, Debug)]
pub enum BoardMode {
    /// Accepting tile-selection clicks.
    Idle,
    /// Displaying a clue; any click dismisses it.
    ShowingClue,
}

/// Whether the point `(px, py)` lies strictly inside the tile's bounding box.
pub open spec fn tile_hit(t: Tile, px: int, py: int) -> bool {
    &&& t.cx - t.half_w < px < t.cx + t.half_w
    &&& t.cy - t.half_h < py < t.cy + t.half_h
}

/// Whether a click at `(px, py)` selects the tile: inside the box and not
/// yet revealed.
pub open spec fn selectable(t: Tile, px: int, py: int) -> bool {
    !t.revealed && tile_hit(t, px, py)
}

/// Index of the first selectable tile in creation order, or `-1` if the
/// click selects nothing.
pub open spec fn first_hit(tiles: Seq<Tile>, px: int, py: int) -> int
    decreases tiles.len(),
{
    if tiles.len() == 0 {
        -1
    } else if selectable(tiles[0], px, py) {
        0
    } else {
        let rest = first_hit(tiles.drop_first(), px, py);
        if rest < 0 {
            -1
        } else {
            rest + 1
        }
    }
}

/// What `first_hit` returns: `-1` exactly when no tile is selectable, and
/// otherwise the least selectable index.
pub proof fn lemma_first_hit_characterization(tiles: Seq<Tile>, px: int, py: int)
    ensures
        first_hit(tiles, px, py) == -1 ==> forall|j: int|
            0 <= j < tiles.len() ==> !selectable(#[trigger] tiles[j], px, py),
        first_hit(tiles, px, py) != -1 ==> {
            let k = first_hit(tiles, px, py);
            &&& 0 <= k < tiles.len()
            &&& selectable(tiles[k], px, py)
            &&& forall|j: int| 0 <= j < k ==> !selectable(#[trigger] tiles[j], px, py)
        },
    decreases tiles.len(),
{
    if tiles.len() == 0 {
    } else {
        lemma_first_hit_characterization(tiles.drop_first(), px, py);
        assert(forall|j: int|
            1 <= j < tiles.len() ==> #[trigger] tiles[j] == tiles.drop_first()[j - 1]);
    }
}

/// If the tile at `k` is selectable and no earlier tile is, the hit test
/// lands on `k`.
pub proof fn lemma_first_hit_is(tiles: Seq<Tile>, px: int, py: int, k: int)
    requires
        0 <= k < tiles.len(),
        selectable(tiles[k], px, py),
        forall|j: int| 0 <= j < k ==> !selectable(#[trigger] tiles[j], px, py),
    ensures
        first_hit(tiles, px, py) == k,
    decreases k,
{
    if k == 0 {
    } else {
        assert(!selectable(tiles[0], px, py));
        assert(forall|j: int|
            1 <= j < tiles.len() ==> #[trigger] tiles[j] == tiles.drop_first()[j - 1]);
        lemma_first_hit_is(tiles.drop_first(), px, py, k - 1);
    }
}

/// Clicking inside an unrevealed tile's bounding box always selects a tile:
/// the first selectable one in creation order, no later than the tile hit.
pub proof fn lemma_hit_unrevealed_selects(tiles: Seq<Tile>, px: int, py: int, i: int)
    requires
        0 <= i < tiles.len(),
        !tiles[i].revealed,
        tile_hit(tiles[i], px, py),
    ensures
        0 <= first_hit(tiles, px, py) <= i,
        selectable(tiles[first_hit(tiles, px, py)], px, py),
{
    lemma_first_hit_characterization(tiles, px, py);
    let k = first_hit(tiles, px, py);
    if k == -1 || k > i {
        assert(!selectable(tiles[i], px, py));
        assert(false);
    }
}

/// A click outside every tile's bounding box selects nothing, so the board
/// is left unchanged.
pub proof fn lemma_miss_selects_nothing(tiles: Seq<Tile>, px: int, py: int)
    requires
        forall|j: int| 0 <= j < tiles.len() ==> !tile_hit(#[trigger] tiles[j], px, py),
    ensures
        first_hit(tiles, px, py) == -1,
{
    lemma_first_hit_characterization(tiles, px, py);
    if first_hit(tiles, px, py) != -1 {
        assert(false);
    }
}

/// Whether two tiles' bounding boxes share no point: along one of the axes
/// the centers are at least the two half-extents apart.
pub open spec fn tiles_separated(a: Tile, b: Tile) -> bool {
    ||| a.cx - b.cx >= a.half_w + b.half_w
    ||| b.cx - a.cx >= a.half_w + b.half_w
    ||| a.cy - b.cy >= a.half_h + b.half_h
    ||| b.cy - a.cy >= a.half_h + b.half_h
}

/// Whether no two distinct tiles overlap.
pub open spec fn tiles_disjoint(tiles: Seq<Tile>) -> bool {
    forall|i: int, j: int|
        0 <= i < tiles.len() && 0 <= j < tiles.len() && i != j ==> tiles_separated(
            #[trigger] tiles[i],
            #[trigger] tiles[j],
        )
}

/// No point lies strictly inside both of two separated tiles.
pub proof fn lemma_separated_share_no_point(a: Tile, b: Tile, px: int, py: int)
    requires
        tiles_separated(a, b),
        tile_hit(a, px, py),
    ensures
        !tile_hit(b, px, py),
{
}

/// On a board whose tiles do not overlap, a click inside an unrevealed
/// tile's bounding box selects exactly that tile.
pub proof fn lemma_hit_unrevealed_selects_it(tiles: Seq<Tile>, px: int, py: int, i: int)
    requires
        tiles_disjoint(tiles),
        0 <= i < tiles.len(),
        !tiles[i].revealed,
        tile_hit(tiles[i], px, py),
    ensures
        first_hit(tiles, px, py) == i,
{
    assert forall|j: int| 0 <= j < i implies !selectable(#[trigger] tiles[j], px, py) by {
        lemma_separated_share_no_point(tiles[i], tiles[j], px, py);
    }
    lemma_first_hit_is(tiles, px, py, i);
}

/// Re-clicking a revealed tile's position selects nothing: on a board whose
/// tiles do not overlap, a point inside a revealed tile's box lies inside no
/// unrevealed tile's box, so the click falls through as a no-op.
pub proof fn lemma_revealed_position_selects_nothing(
    tiles: Seq<Tile>,
    px: int,
    py: int,
    k: int,
)
    requires
        tiles_disjoint(tiles),
        0 <= k < tiles.len(),
        tiles[k].revealed,
        tile_hit(tiles[k], px, py),
    ensures
        first_hit(tiles, px, py) == -1,
{
    assert forall|j: int| 0 <= j < tiles.len() implies !selectable(
        #[trigger] tiles[j],
        px,
        py,
    ) by {
        if j != k {
            lemma_separated_share_no_point(tiles[k], tiles[j], px, py);
        }
    }
    lemma_first_hit_characterization(tiles, px, py);
    if first_hit(tiles, px, py) != -1 {
        assert(false);
    }
}

/// Tile geometry small enough that hit testing cannot overflow.
pub open spec fn tile_bounded(t: Tile) -> bool {
    &&& -(MAX_DIM as int) <= t.cx <= MAX_DIM as int
    &&& -(MAX_DIM as int) <= t.cy <= MAX_DIM as int
    &&& 0 <= t.half_w <= MAX_DIM as int
    &&& 0 <= t.half_h <= MAX_DIM as int
}

/// The geometry `Board::build` gives tile `k` on a `width` by `height`
/// window with a `cols` by `rows` grid: centered on its column and row
/// anchors (the grid starts two bands below the window top), half a band in
/// each half-extent.
pub open spec fn built_tile(width: int, height: int, cols: int, rows: int, k: int, t: Tile) -> bool {
    let c = k / rows;
    let r = k % rows;
    &&& t.col == c
    &&& t.row == r
    &&& t.cx == band_anchor_spec(width, cols, c) - width / 2
    &&& t.cy == band_anchor_spec(height, rows + 2, r + 2) - height / 2
    &&& t.half_w == width / (2 * cols)
    &&& t.half_h == height / (2 * (rows + 2))
}

/// The dollar amount of value tier `row`: 200 for the top tier, then 400...
pub open spec fn tier_amount(row: int) -> int {
    200 * (row + 1)
}

/// The text on the value label of tier `row`: a dollar sign and the amount.
pub open spec fn tier_text(row: int) -> Seq<char> {
    seq!['$'] + dec_digits(tier_amount(row))
}

/// The title text: the quiz's name, or empty when the document gave none.
pub open spec fn spec_title_text(quiz: Quiz) -> Seq<char> {
    match quiz.name {
        Some(n) => n@,
        None => Seq::empty(),
    }
}

/// A label equal to `pre` except that its visibility is `vis`.
pub open spec fn label_with_visibility(post: Label, pre: Label, vis: bool) -> bool {
    &&& post.x == pre.x
    &&& post.y == pre.y
    &&& post.text == pre.text
    &&& post.visible == vis
}

/// The value label text for tier `row`.
fn value_text(row: usize) -> (s: String)
    requires
        row < MAX_GRID,
    ensures
        s@ == tier_text(row as int),
{
    let amount: u64 = 200 * (row as u64 + 1);
    let mut s = String::from_str("$");
    let digits = dec_string(amount);
    s.append(digits.as_str());
    proof {
        reveal_strlit("$");
        assert(s@ =~= tier_text(row as int));
    }
    s
}

/// Finds the first unrevealed tile, in creation order, whose bounding box
/// strictly contains the point, if any.
pub fn find_hit(tiles: &Vec<Tile>, px: i64, py: i64) -> (r: Option<usize>)
    requires
        forall|k: int| 0 <= k < tiles@.len() ==> tile_bounded(#[trigger] tiles@[k]),
    ensures
        match r {
            Some(k) => k == first_hit(tiles@, px as int, py as int),
            None => first_hit(tiles@, px as int, py as int) == -1,
        },
{
    let n = tiles.len();
    let mut k: usize = 0;
    while k < n
        invariant
            n == tiles@.len(),
            k <= n,
            forall|k2: int| 0 <= k2 < n ==> tile_bounded(#[trigger] tiles@[k2]),
            forall|j: int| 0 <= j < k ==> !selectable(#[trigger] tiles@[j], px as int, py as int),
        decreases n - k,
    {
        let t = tiles[k];
        if !t.revealed && px > t.cx - t.half_w && px < t.cx + t.half_w && py > t.cy - t.half_h
            && py < t.cy + t.half_h {
            proof {
                lemma_first_hit_is(tiles@, px as int, py as int, k as int);
            }
            return Some(k);
        }
        k = k + 1;
    }
    proof {
        lemma_first_hit_characterization(tiles@, px as int, py as int);
        if first_hit(tiles@, px as int, py as int) != -1 {
            assert(false);
        }
    }
    None
}

/// The board aggregate: the loaded quiz, the window, the derived grid, and
/// all mutable interaction state.
pub struct Board {
    pub quiz: Quiz,
    pub width: u64,
    pub height: u64,
    pub cols: usize,
    pub rows: usize,
    pub mode: BoardMode,
    pub tiles: Vec<Tile>,
    pub title: Label,
    pub headers: Vec<Label>,
    pub value_labels: Vec<Label>,
    pub overlay: Option<ClueOverlay>,
}

impl Board {
    /// The board's standing invariant: the grid matches the quiz, tile `k`
    /// covers grid position `(k / rows, k % rows)`, the overlay exists
    /// exactly while a clue is showing, value labels are visible exactly for
    /// unrevealed tiles while idle and all hidden while a clue is showing,
    /// and the title and headers are always visible.
    pub open spec fn wf(self) -> bool {
        &&& self.quiz.wf()
        &&& self.cols == self.quiz.spec_cols()
        &&& self.rows == self.quiz.spec_rows()
        &&& 1 <= self.width <= MAX_DIM
        &&& 1 <= self.height <= MAX_DIM
        &&& self.tiles@.len() == self.cols * self.rows
        &&& self.value_labels@.len() == self.tiles@.len()
        &&& self.headers@.len() == self.cols
        &&& forall|k: int| 0 <= k < self.tiles@.len() ==> tile_bounded(#[trigger] self.tiles@[k])
        &&& forall|k: int|
            0 <= k < self.tiles@.len() ==> (#[trigger] self.tiles@[k]).col == k / (
            self.rows as int) && self.tiles@[k].row == k % (self.rows as int)
        &&& (self.mode is ShowingClue <==> self.overlay is Some)
        &&& (self.mode is Idle ==> forall|k: int|
            0 <= k < self.value_labels@.len() ==> (#[trigger] self.value_labels@[k]).visible
                == !self.tiles@[k].revealed)
        &&& (self.mode is ShowingClue ==> forall|k: int|
            0 <= k < self.value_labels@.len() ==> !(#[trigger] self.value_labels@[k]).visible)
        &&& self.title.visible
        &&& forall|c: int| 0 <= c < self.headers@.len() ==> (#[trigger] self.headers@[c]).visible
    }

    /// Builds the idle board for `quiz`: `cols * rows` unrevealed tiles laid
    /// out by the layout engine, a visible value label on each tile, a
    /// header label on each category, the title on the topmost band, and no
    /// overlay. No two tiles overlap.
    pub fn build(quiz: Quiz, width: u64, height: u64) -> (b: Board)
        requires
            quiz.wf(),
            1 <= width <= MAX_DIM,
            1 <= height <= MAX_DIM,
            quiz.spec_cols() <= MAX_GRID,
            quiz.spec_rows() <= MAX_GRID,
        ensures
            b.wf(),
            b.quiz == quiz,
            b.width == width,
            b.height == height,
            b.mode is Idle,
            b.overlay is None,
            b.tiles@.len() == quiz.spec_clue_count(),
            forall|k: int|
                0 <= k < b.tiles@.len() ==> built_tile(
                    width as int,
                    height as int,
                    quiz.spec_cols(),
                    quiz.spec_rows(),
                    k,
                    #[trigger] b.tiles@[k],
                ) && !b.tiles@[k].revealed,
            tiles_disjoint(b.tiles@),
            b.title.x == 0,
            b.title.y == band_anchor_spec(height as int, quiz.spec_rows() + 2, 0) - height as int
                / 2,
            b.title.text@ == spec_title_text(quiz),
            forall|c: int|
                0 <= c < b.headers@.len() ==> {
                    let hd = #[trigger] b.headers@[c];
                    &&& hd.x == band_anchor_spec(width as int, quiz.spec_cols(), c) - width as int
                        / 2
                    &&& hd.y == band_anchor_spec(height as int, quiz.spec_rows() + 2, 1)
                        - height as int / 2
                    &&& hd.text == quiz.categories@[c].name
                },
            forall|k: int|
                0 <= k < b.value_labels@.len() ==> {
                    let vl = #[trigger] b.value_labels@[k];
                    &&& vl.x == b.tiles@[k].cx
                    &&& vl.y == b.tiles@[k].cy
                    &&& vl.text@ == tier_text(k % quiz.spec_rows())
                    &&& vl.visible
                },
    {
        let cols = quiz.categories.len();
        let rows = quiz.rows();
        let band_rows: u64 = rows as u64 + 2;
        let lo = layout(width, height, cols as u64, band_rows);
        let half_w: i64 = (width / (2 * cols as u64)) as i64;
        let half_h: i64 = (height / (2 * band_rows)) as i64;
        let half_x: i64 = (width / 2) as i64;
        let half_y: i64 = (height / 2) as i64;

        let mut tiles: Vec<Tile> = Vec::new();
        let mut value_labels: Vec<Label> = Vec::new();
        let mut c: usize = 0;
        while c < cols
            invariant
                quiz.wf(),
                cols == quiz.spec_cols(),
                rows == quiz.spec_rows(),
                cols <= MAX_GRID,
                rows <= MAX_GRID,
                1 <= width <= MAX_DIM,
                1 <= height <= MAX_DIM,
                band_rows == rows + 2,
                lo.col_x@.len() == cols,
                lo.row_y@.len() == band_rows,
                forall|i: int|
                    0 <= i < cols ==> #[trigger] lo.col_x@[i] == band_anchor_spec(
                        width as int,
                        cols as int,
                        i,
                    ),
                forall|j: int|
                    0 <= j < band_rows ==> #[trigger] lo.row_y@[j] == band_anchor_spec(
                        height as int,
                        band_rows as int,
                        j,
                    ),
                half_w == width as int / (2 * cols as int),
                half_h == height as int / (2 * (rows as int + 2)),
                half_x == width as int / 2,
                half_y == height as int / 2,
                c <= cols,
                tiles@.len() == c * rows,
                value_labels@.len() == tiles@.len(),
                forall|k: int| 0 <= k < tiles@.len() ==> tile_bounded(#[trigger] tiles@[k]),
                forall|k: int|
                    0 <= k < tiles@.len() ==> built_tile(
                        width as int,
                        height as int,
                        cols as int,
                        rows as int,
                        k,
                        #[trigger] tiles@[k],
                    ) && !tiles@[k].revealed,
                forall|k: int|
                    0 <= k < value_labels@.len() ==> {
                        let vl = #[trigger] value_labels@[k];
                        &&& vl.x == tiles@[k].cx
                        &&& vl.y == tiles@[k].cy
                        &&& vl.text@ == tier_text(k % (rows as int))
                        &&& vl.visible
                    },
            decreases cols - c,
        {
            let mut r: usize = 0;
            while r < rows
                invariant
                    quiz.wf(),
                    cols == quiz.spec_cols(),
                    rows == quiz.spec_rows(),
                    cols <= MAX_GRID,
                    rows <= MAX_GRID,
                    1 <= width <= MAX_DIM,
                    1 <= height <= MAX_DIM,
                    band_rows == rows + 2,
                    lo.col_x@.len() == cols,
                    lo.row_y@.len() == band_rows,
                    forall|i: int|
                        0 <= i < cols ==> #[trigger] lo.col_x@[i] == band_anchor_spec(
                            width as int,
                            cols as int,
                            i,
                        ),
                    forall|j: int|
                        0 <= j < band_rows ==> #[trigger] lo.row_y@[j] == band_anchor_spec(
                            height as int,
                            band_rows as int,
                            j,
                        ),
                    half_w == width as int / (2 * cols as int),
                    half_h == height as int / (2 * (rows as int + 2)),
                    half_x == width as int / 2,
                    half_y == height as int / 2,
                    c < cols,
                    r <= rows,
                    tiles@.len() == c * rows + r,
                    value_labels@.len() == tiles@.len(),
                    forall|k: int| 0 <= k < tiles@.len() ==> tile_bounded(#[trigger] tiles@[k]),
                    forall|k: int|
                        0 <= k < tiles@.len() ==> built_tile(
                            width as int,
                            height as int,
                            cols as int,
                            rows as int,
                            k,
                            #[trigger] tiles@[k],
                        ) && !tiles@[k].revealed,
                    forall|k: int|
                        0 <= k < value_labels@.len() ==> {
                            let vl = #[trigger] value_labels@[k];
                            &&& vl.x == tiles@[k].cx
                            &&& vl.y == tiles@[k].cy
                            &&& vl.text@ == tier_text(k % (rows as int))
                            &&& vl.visible
                        },
                decreases rows - r,
            {
                proof {
                    lemma_band_anchor_in_range(width as int, cols as int, c as int);
                    lemma_band_anchor_in_range(height as int, band_rows as int, r as int + 2);
                    lemma_fundamental_div_mod_converse(
                        c as int * (rows as int) + r as int,
                        rows as int,
                        c as int,
                        r as int,
                    );
                }
                let cx: i64 = lo.col_x[c] as i64 - half_x;
                let cy: i64 = lo.row_y[r + 2] as i64 - half_y;
                tiles.push(Tile { col: c, row: r, cx, cy, half_w, half_h, revealed: false });
                value_labels.push(Label { x: cx, y: cy, text: value_text(r), visible: true });
                r = r + 1;
            }
            proof {
                assert((c as int + 1) * (rows as int) == c as int * (rows as int) + rows as int)
                    by (nonlinear_arith);
            }
            c = c + 1;
        }

        let mut headers: Vec<Label> = Vec::new();
        let mut c2: usize = 0;
        while c2 < cols
            invariant
                quiz.wf(),
                cols == quiz.spec_cols(),
                rows == quiz.spec_rows(),
                1 <= width <= MAX_DIM,
                1 <= height <= MAX_DIM,
                band_rows == rows + 2,
                lo.col_x@.len() == cols,
                lo.row_y@.len() == band_rows,
                forall|i: int|
                    0 <= i < cols ==> #[trigger] lo.col_x@[i] == band_anchor_spec(
                        width as int,
                        cols as int,
                        i,
                    ),
                forall|j: int|
                    0 <= j < band_rows ==> #[trigger] lo.row_y@[j] == band_anchor_spec(
                        height as int,
                        band_rows as int,
                        j,
                    ),
                half_x == width as int / 2,
                half_y == height as int / 2,
                c2 <= cols,
                headers@.len() == c2,
                forall|i: int|
                    0 <= i < c2 ==> {
                        let hd = #[trigger] headers@[i];
                        &&& hd.x == band_anchor_spec(width as int, cols as int, i) - width as int
                            / 2
                        &&& hd.y == band_anchor_spec(height as int, band_rows as int, 1)
                            - height as int / 2
                        &&& hd.text == quiz.categories@[i].name
                        &&& hd.visible
                    },
            decreases cols - c2,
        {
            proof {
                lemma_band_anchor_in_range(width as int, cols as int, c2 as int);
                lemma_band_anchor_in_range(height as int, band_rows as int, 1);
            }
            let hx: i64 = lo.col_x[c2] as i64 - half_x;
            let hy: i64 = lo.row_y[1] as i64 - half_y;
            let text = quiz.categories[c2].name.clone();
            headers.push(Label { x: hx, y: hy, text, visible: true });
            c2 = c2 + 1;
        }

        proof {
            lemma_band_anchor_in_range(height as int, band_rows as int, 0);
        }
        let title_text: String = match &quiz.name {
            Some(n) => n.clone(),
            None => String::new(),
        };
        let title = Label {
            x: (width / 2) as i64 - half_x,
            y: lo.title_y as i64 - half_y,
            text: title_text,
            visible: true,
        };

        proof {
            lemma_built_tiles_disjoint(
                tiles@,
                width as int,
                height as int,
                cols as int,
                rows as int,
            );
            lemma_mul_is_commutative(cols as int, rows as int);
        }

        Board {
            quiz,
            width,
            height,
            cols,
            rows,
            mode: BoardMode::Idle,
            tiles,
            title,
            headers,
            value_labels,
            overlay: None,
        }
    }

    /// Handles one click at window coordinates `(x, y)`.
    ///
    /// While a clue is showing, any click dismisses it: the overlay goes
    /// away, the board returns to idle, and each value label becomes visible
    /// again exactly if its tile is still unrevealed. While idle, the click
    /// is recentered and hit-tested: if it selects no tile the board is left
    /// exactly as it was; otherwise the first selectable tile in creation
    /// order is revealed for good, every value label is hidden, and the
    /// overlay opens with that tile's exact clue text.
    pub fn click(&mut self, x: u64, y: u64)
        requires
            old(self).wf(),
            x <= old(self).width,
            y <= old(self).height,
        ensures
            final(self).wf(),
            final(self).quiz == old(self).quiz,
            final(self).width == old(self).width,
            final(self).height == old(self).height,
            final(self).cols == old(self).cols,
            final(self).rows == old(self).rows,
            final(self).title == old(self).title,
            final(self).headers == old(self).headers,
            old(self).mode is ShowingClue ==> {
                &&& final(self).mode is Idle
                &&& final(self).overlay is None
                &&& final(self).tiles == old(self).tiles
                &&& final(self).value_labels@.len() == old(self).value_labels@.len()
                &&& forall|k: int|
                    0 <= k < old(self).value_labels@.len() ==> label_with_visibility(
                        #[trigger] final(self).value_labels@[k],
                        old(self).value_labels@[k],
                        !old(self).tiles@[k].revealed,
                    )
            },
            old(self).mode is Idle ==> ({
                let px = x - old(self).width / 2;
                let py = y - old(self).height / 2;
                let k = first_hit(old(self).tiles@, px, py);
                &&& (k == -1 ==> *final(self) == *old(self))
                &&& (k >= 0 ==> {
                    &&& final(self).mode is ShowingClue
                    &&& final(self).overlay matches Some(ov) && ov.text@ == old(
                        self,
                    ).quiz.spec_clue(k)
                    &&& final(self).tiles@ == old(self).tiles@.update(
                        k,
                        (Tile { revealed: true, ..old(self).tiles@[k] }),
                    )
                    &&& final(self).value_labels@.len() == old(self).value_labels@.len()
                    &&& forall|j: int|
                        0 <= j < old(self).value_labels@.len() ==> label_with_visibility(
                            #[trigger] final(self).value_labels@[j],
                            old(self).value_labels@[j],
                            false,
                        )
                })
            }),
    {
        match self.mode {
            BoardMode::ShowingClue => {
                self.overlay = None;
                self.mode = BoardMode::Idle;
                let n = self.value_labels.len();
                let mut j: usize = 0;
                while j < n
                    invariant
                        old(self).wf(),
                        n == self.value_labels@.len(),
                        n == old(self).value_labels@.len(),
                        n == self.tiles@.len(),
                        j <= n,
                        self.quiz == old(self).quiz,
                        self.width == old(self).width,
                        self.height == old(self).height,
                        self.cols == old(self).cols,
                        self.rows == old(self).rows,
                        self.title == old(self).title,
                        self.headers == old(self).headers,
                        self.tiles == old(self).tiles,
                        self.mode is Idle,
                        self.overlay is None,
                        forall|i: int|
                            0 <= i < j ==> label_with_visibility(
                                #[trigger] self.value_labels@[i],
                                old(self).value_labels@[i],
                                !self.tiles@[i].revealed,
                            ),
                        forall|i: int|
                            j <= i < n ==> #[trigger] self.value_labels@[i] == old(
                                self,
                            ).value_labels@[i],
                    decreases n - j,
                {
                    let vis = !self.tiles[j].revealed;
                    self.value_labels[j].visible = vis;
                    j = j + 1;
                }
            },
            BoardMode::Idle => {
                let px: i64 = x as i64 - (self.width / 2) as i64;
                let py: i64 = y as i64 - (self.height / 2) as i64;
                let hit = find_hit(&self.tiles, px, py);
                match hit {
                    None => {},
                    Some(k) => {
                        proof {
                            lemma_first_hit_characterization(
                                self.tiles@,
                                px as int,
                                py as int,
                            );
                        }
                        self.tiles[k].revealed = true;
                        let n = self.value_labels.len();
                        let mut j: usize = 0;
                        while j < n
                            invariant
                                old(self).wf(),
                                n == self.value_labels@.len(),
                                n == old(self).value_labels@.len(),
                                j <= n,
                                k < n,
                                n == self.tiles@.len(),
                                self.quiz == old(self).quiz,
                                self.width == old(self).width,
                                self.height == old(self).height,
                                self.cols == old(self).cols,
                                self.rows == old(self).rows,
                                self.title == old(self).title,
                                self.headers == old(self).headers,
                                self.mode == old(self).mode,
                                self.overlay == old(self).overlay,
                                self.tiles@ == old(self).tiles@.update(
                                    k as int,
                                    (Tile { revealed: true, ..old(self).tiles@[k as int] }),
                                ),
                                forall|i: int|
                                    0 <= i < j ==> label_with_visibility(
                                        #[trigger] self.value_labels@[i],
                                        old(self).value_labels@[i],
                                        false,
                                    ),
                                forall|i: int|
                                    j <= i < n ==> #[trigger] self.value_labels@[i] == old(
                                        self,
                                    ).value_labels@[i],
                            decreases n - j,
                        {
                            self.value_labels[j].visible = false;
                            j = j + 1;
                        }
                        proof {
                            lemma_mul_is_commutative(
                                old(self).cols as int,
                                old(self).rows as int,
                            );
                        }
                        let clue = String::from_str(self.quiz.get_clue(k));
                        self.overlay = Some(ClueOverlay { text: clue });
                        self.mode = BoardMode::ShowingClue;
                    },
                }
            },
        }
    }
}

/// Doubling the quotient by `2 * n` never exceeds the quotient by `n`.
proof fn lemma_double_half_le(dim: int, n: int)
    requires
        1 <= n,
        0 <= dim,
    ensures
        2 * (dim / (2 * n)) <= dim / n,
{
    let t = dim / (2 * n);
    lemma_fundamental_div_mod(dim, 2 * n);
    lemma_mod_division_less_than_divisor(dim, 2 * n);
    assert((2 * n) * t == n * (2 * t)) by (nonlinear_arith);
    lemma_div_multiples_vanish(2 * t, n);
    lemma_div_is_ordered(n * (2 * t), dim, n);
}

/// Tiles with the geometry `Board::build` produces never overlap: tiles in
/// different columns are a full band apart horizontally, tiles in the same
/// column a full band apart vertically, and the half-extents are at most
/// half a band.
proof fn lemma_built_tiles_disjoint(
    tiles: Seq<Tile>,
    width: int,
    height: int,
    cols: int,
    rows: int,
)
    requires
        1 <= cols,
        1 <= rows,
        1 <= width,
        1 <= height,
        tiles.len() == cols * rows,
        forall|k: int|
            0 <= k < tiles.len() ==> built_tile(width, height, cols, rows, k, #[trigger] tiles[k]),
    ensures
        tiles_disjoint(tiles),
{
    let hw = width / (2 * cols);
    let hh = height / (2 * (rows + 2));
    assert forall|i: int, j: int|
        0 <= i < tiles.len() && 0 <= j < tiles.len() && i != j implies tiles_separated(
        #[trigger] tiles[i],
        #[trigger] tiles[j],
    ) by {
        let ci = i / rows;
        let ri = i % rows;
        let cj = j / rows;
        let rj = j % rows;
        lemma_mul_is_commutative(rows, cols);
        lemma_multiply_divide_lt(i, rows, cols);
        lemma_multiply_divide_lt(j, rows, cols);
        lemma_mod_division_less_than_divisor(i, rows);
        lemma_mod_division_less_than_divisor(j, rows);
        if ci == cj {
            lemma_fundamental_div_mod(i, rows);
            lemma_fundamental_div_mod(j, rows);
            assert(ri != rj);
            if hh == 0 {
                assert(tiles_separated(tiles[i], tiles[j]));
            } else {
                if height < 2 * (rows + 2) {
                    lemma_basic_div(height, 2 * (rows + 2));
                    assert(false);
                }
                lemma_double_half_le(height, rows + 2);
                if ri < rj {
                    lemma_band_anchors_decrease(height, rows + 2, ri + 2, rj + 2);
                } else {
                    lemma_band_anchors_decrease(height, rows + 2, rj + 2, ri + 2);
                }
            }
        } else {
            if hw == 0 {
                assert(tiles_separated(tiles[i], tiles[j]));
            } else {
                if width < 2 * cols {
                    lemma_basic_div(width, 2 * cols);
                    assert(false);
                }
                lemma_double_half_le(width, cols);
                if ci < cj {
                    lemma_band_anchors_decrease(width, cols, ci, cj);
                } else {
                    lemma_band_anchors_decrease(width, cols, cj, ci);
                }
            }
        }
    }
}

} // verus!
