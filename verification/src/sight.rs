//! Laws of the visibility window: where it can show anything at all, what
//! ends a ray, and exactly how far sight carries along the rows, the columns
//! and the diagonals through the observer.

use vstd::prelude::*;
use crate::fov::{target_hits, visible, window_tile, Window};
use crate::map::{clear, inside, Tile};
use crate::ray::{
    lemma_drift_bounds, lemma_drift_diagonal, lemma_drift_full, lemma_drift_monotone,
    lemma_drift_straight, Aim, Vantage, TREE_REACH,
};

verus! {

/// No ray leaves the window: every cell on the line toward a cell of the
/// window, up to that cell, lies under the window.
pub proof fn lemma_ray_stays_in_window(win: Window, ti: int, tj: int, k: int)
    requires
        win.holds(ti, tj),
        0 <= k <= win.aim(ti, tj).major(),
    ensures
        win.holds(
            win.height / 2 + win.aim(ti, tj).offset(k).0,
            win.width / 2 + win.aim(ti, tj).offset(k).1,
        ),
{
    let aim = win.aim(ti, tj);
    lemma_drift_bounds(aim.major(), aim.minor(), k);
}

/// Only cells of the grid that lie under the window are ever visible.
pub proof fn lemma_visible_is_bounded(eye: Vantage, win: Window, r: int, c: int)
    requires
        visible(eye, win, r, c),
    ensures
        inside(eye.map.len() as int, r, c),
        win.holds(r - eye.row + win.height / 2, c - eye.col + win.width / 2),
{
    let (ti, tj) = choose|ti: int, tj: int|
        win.holds(ti, tj) && #[trigger] target_hits(eye, win, ti, tj, r, c);
    let aim = win.aim(ti, tj);
    let k = choose|k: int|
        #[trigger] eye.marks(aim, k) && aim.offset(k) == (r - eye.row, c - eye.col);
    lemma_ray_stays_in_window(win, ti, tj, k);
}

/// A cell of the window with no grid under it shows `Blank`: a ray that
/// walks off the grid ends there and marks nothing.
pub proof fn lemma_off_grid_is_blank(eye: Vantage, win: Window, i: int, j: int)
    requires
        inside(eye.map.len() as int, eye.row, eye.col),
        !inside(eye.map.len() as int, win.row_under(eye, i), win.col_under(eye, j)),
    ensures
        window_tile(eye, win, i, j) == Tile::Blank,
{
    let r = win.row_under(eye, i);
    let c = win.col_under(eye, j);
    if visible(eye, win, r, c) {
        lemma_visible_is_bounded(eye, win, r, c);
    }
}

/// The centre of the window shows the observer, whatever lies under it.
pub proof fn lemma_centre_is_player(eye: Vantage, win: Window)
    ensures
        window_tile(eye, win, win.height / 2, win.width / 2) == Tile::Player,
{
}

/// Every ray marks the observer's own cell first, so the grid cell under
/// the centre is visible.
pub proof fn lemma_observer_is_visible(eye: Vantage, win: Window)
    requires
        inside(eye.map.len() as int, eye.row, eye.col),
        win.height > 0,
        win.width > 0,
    ensures
        visible(eye, win, eye.row, eye.col),
{
    let aim = win.aim(0, 0);
    assert(aim.offset(0) == (0int, 0int));
    assert(eye.marks(aim, 0));
    assert(target_hits(eye, win, 0, 0, eye.row, eye.col));
    assert(win.holds(0, 0));
}

/// A cell of the window that shows anything but `Blank` is the centre or
/// lies over a cell that some ray has marked.
pub proof fn lemma_shown_is_seen(eye: Vantage, win: Window, i: int, j: int)
    requires
        window_tile(eye, win, i, j) != Tile::Blank,
        !(i == win.height / 2 && j == win.width / 2),
    ensures
        visible(eye, win, win.row_under(eye, i), win.col_under(eye, j)),
{
}

/// A ray ends where it leaves the grid: it marks neither the first of its
/// cells that lies off the grid nor any cell after it.
pub proof fn lemma_ray_ends_off_grid(eye: Vantage, aim: Aim, j: int, k: int)
    requires
        0 <= j <= k,
        !eye.on_grid(aim, j),
    ensures
        !eye.marks(aim, k),
{
    if j < k && eye.marks(aim, k) {
        assert(eye.lets_through(aim, j, k));
    }
}

/// A ray ends on an opaque cell: it marks no cell after one through which
/// sight does not pass.
pub proof fn lemma_ray_ends_on_opaque(eye: Vantage, aim: Aim, j: int, k: int)
    requires
        0 <= j < k,
        !clear(eye.tile(aim, j)),
    ensures
        !eye.marks(aim, k),
{
    if eye.marks(aim, k) {
        assert(eye.lets_through(aim, j, k));
    }
}

/// A tree shortens a ray: the ray marks no cell more than `TREE_REACH` steps
/// beyond a tree on which the observer does not stand.
pub proof fn lemma_ray_ends_behind_tree(eye: Vantage, aim: Aim, j: int, k: int)
    requires
        1 <= j,
        j + TREE_REACH < k,
        eye.tile(aim, j) is Tree,
    ensures
        !eye.marks(aim, k),
{
    if eye.marks(aim, k) {
        assert(eye.lets_through(aim, j, k));
    }
}

/// One of the eight directions along the rows, the columns and the
/// diagonals of the grid, as the change of row and of column that one step
/// makes: each of them -1, 0 or 1, and not both 0.
pub struct Heading {
    pub dr: int,
    pub dc: int,
}

impl Heading {
    /// Whether this is one of the eight directions.
    pub open spec fn is_valid(self) -> bool {
        -1 <= self.dr <= 1 && -1 <= self.dc <= 1 && !(self.dr == 0 && self.dc == 0)
    }

    /// `d` steps in this direction, as a change of row or column by `by`,
    /// which is -1, 0 or 1.
    pub open spec fn scaled(by: int, d: int) -> int {
        if by < 0 {
            -d
        } else if by > 0 {
            d
        } else {
            0
        }
    }

    /// The cell `d` steps from `(row, col)` in this direction.
    pub open spec fn cell(self, row: int, col: int, d: int) -> (int, int) {
        (row + Self::scaled(self.dr, d), col + Self::scaled(self.dc, d))
    }
}

impl Vantage {
    /// The cell `d` steps from the observer in direction `to`.
    pub open spec fn ahead(self, to: Heading, d: int) -> (int, int) {
        to.cell(self.row, self.col, d)
    }

    /// The cell `j` steps ahead lets sight through as far as the cell `d`
    /// steps ahead: it lies on the grid, it is clear, and if it is a tree
    /// other than the observer's own cell, `d` is at most `TREE_REACH` more.
    pub open spec fn line_lets_through(self, to: Heading, j: int, d: int) -> bool {
        let (r, c) = self.ahead(to, j);
        &&& inside(self.map.len() as int, r, c)
        &&& clear(self.map[r]@[c])
        &&& (j >= 1 && self.map[r]@[c] is Tree ==> d <= j + TREE_REACH)
    }

    /// The cells from the observer up to, but without, the cell `d` steps
    /// ahead all let sight through to that cell.
    pub open spec fn line_open(self, to: Heading, d: int) -> bool {
        forall|j: int| 0 <= j < d ==> #[trigger] self.line_lets_through(to, j, d)
    }
}

impl Window {
    /// The cell of the window `d` steps from its centre in direction `to`.
    pub open spec fn ahead(self, to: Heading, d: int) -> (int, int) {
        to.cell(self.height / 2, self.width / 2, d)
    }
}

/// The ray aimed at the cell `d` steps ahead runs straight toward it.
proof fn lemma_straight_ray(win: Window, to: Heading, d: int, k: int)
    requires
        to.is_valid(),
        0 <= k,
        1 <= d,
    ensures
        win.aim(win.ahead(to, d).0, win.ahead(to, d).1).offset(k) == to.cell(0, 0, k),
        win.aim(win.ahead(to, d).0, win.ahead(to, d).1).major() == d,
{
    lemma_drift_straight(d, k);
    lemma_drift_diagonal(d, k);
}

/// A ray that stands `d` steps ahead of the observer in one of the eight
/// directions has come there straight.
proof fn lemma_ray_came_straight(aim: Aim, to: Heading, d: int, k: int, j: int)
    requires
        to.is_valid(),
        1 <= d,
        0 <= k <= aim.major(),
        aim.offset(k) == to.cell(0, 0, d),
        0 <= j <= k,
    ensures
        k == d,
        aim.offset(j) == to.cell(0, 0, j),
{
    lemma_drift_bounds(aim.major(), aim.minor(), k);
    lemma_drift_monotone(aim.major(), aim.minor(), j, k);
    if to.dr != 0 && to.dc != 0 {
        lemma_drift_full(aim.major(), aim.minor(), j, k);
    }
}

/// Sight along a row, a column or a diagonal through the observer carries
/// exactly as far as the cells in between allow: a cell `d` steps away
/// under the window is visible if and only if it lies on the grid, every
/// cell before it on the line lies on the grid and is clear, and it is no
/// more than `TREE_REACH` steps beyond any tree among them, the observer's
/// own cell excepted.
///
/// So an opaque cell on the line hides everything behind it, and a tree on
/// the line shows the three cells behind it and hides the rest.
pub proof fn lemma_sight_along_line(eye: Vantage, win: Window, to: Heading, d: int)
    requires
        to.is_valid(),
        1 <= d,
        win.holds(win.ahead(to, d).0, win.ahead(to, d).1),
    ensures
        visible(eye, win, eye.ahead(to, d).0, eye.ahead(to, d).1) <==> inside(
            eye.map.len() as int,
            eye.ahead(to, d).0,
            eye.ahead(to, d).1,
        ) && eye.line_open(to, d),
{
    let (r, c) = eye.ahead(to, d);
    let (ti, tj) = win.ahead(to, d);
    if inside(eye.map.len() as int, r, c) && eye.line_open(to, d) {
        // The ray aimed at the cell itself reaches it.
        let aim = win.aim(ti, tj);
        lemma_straight_ray(win, to, d, d);
        assert forall|j: int| 0 <= j < d implies #[trigger] eye.lets_through(aim, j, d) by {
            lemma_straight_ray(win, to, d, j);
            assert(eye.line_lets_through(to, j, d));
        }
        assert(eye.marks(aim, d));
        assert(target_hits(eye, win, ti, tj, r, c));
    }
    if visible(eye, win, r, c) {
        let (ai, aj) = choose|ai: int, aj: int|
            win.holds(ai, aj) && #[trigger] target_hits(eye, win, ai, aj, r, c);
        let aim = win.aim(ai, aj);
        let k = choose|k: int|
            #[trigger] eye.marks(aim, k) && aim.offset(k) == (r - eye.row, c - eye.col);
        lemma_ray_came_straight(aim, to, d, k, 0);
        assert forall|j: int| 0 <= j < d implies #[trigger] eye.line_lets_through(to, j, d) by {
            lemma_ray_came_straight(aim, to, d, k, j);
            assert(eye.lets_through(aim, j, k));
        }
    }
}

} // verus!
