//! What an observer on the grid sees inside a window centred on its own cell.
//!
//! One ray is cast from the observer to every cell of the window. A cell of
//! the window shows the tile under it if some ray marks it, and is blank
//! otherwise; the centre always shows the observer.

use vstd::prelude::*;
use crate::map::{has_shape, inside, is_clear, is_square, Tile};
use crate::ray::{
    drift, lemma_drift_bounds, lemma_walk_blocked, lemma_walk_marks, lemma_walk_off_grid,
    lemma_walk_spent, lemma_walk_start, lemma_walk_step, Aim, Vantage, TREE_REACH,
};

verus! {

/// Rows of the window that the game shows.
pub const FOV_HEIGHT: usize = 21;

/// Columns of the window that the game shows.
pub const FOV_WIDTH: usize = 41;

/// A window of `height` rows and `width` columns. The observer stands under
/// its centre, the cell `(height / 2, width / 2)`.
pub struct Window {
    pub height: int,
    pub width: int,
}

impl Window {
    /// Whether `(i, j)` names a cell of the window.
    pub open spec fn holds(self, i: int, j: int) -> bool {
        0 <= i < self.height && 0 <= j < self.width
    }

    /// The aim of the ray toward cell `(ti, tj)` of the window.
    pub open spec fn aim(self, ti: int, tj: int) -> Aim {
        Aim { dr: ti - self.height / 2, dc: tj - self.width / 2 }
    }

    /// The row of the grid under row `i` of the window.
    pub open spec fn row_under(self, eye: Vantage, i: int) -> int {
        eye.row + i - self.height / 2
    }

    /// The column of the grid under column `j` of the window.
    pub open spec fn col_under(self, eye: Vantage, j: int) -> int {
        eye.col + j - self.width / 2
    }
}

/// The window that a matrix of tiles is: as many rows as the matrix has, and
/// as many columns as its first row.
pub open spec fn window_of(matrix: Seq<Vec<Tile>>) -> Window {
    Window { height: matrix.len() as int, width: matrix[0]@.len() as int }
}

/// A matrix of tiles is a window: it has a row, and all its rows are as long
/// as the first.
pub open spec fn is_window(matrix: Seq<Vec<Tile>>) -> bool {
    matrix.len() > 0 && has_shape(matrix, matrix.len() as int, matrix[0]@.len() as int)
}

/// The observer at `(row, col)` of `map`.
pub open spec fn vantage(map: &Vec<Vec<Tile>>, row: usize, col: usize) -> Vantage {
    Vantage { map: map@, row: row as int, col: col as int }
}

/// The window of `height` rows and `width` columns.
pub open spec fn window(height: usize, width: usize) -> Window {
    Window { height: height as int, width: width as int }
}

/// The ray cast toward cell `(ti, tj)` of the window marks the grid cell
/// `(r, c)`.
pub open spec fn target_hits(eye: Vantage, win: Window, ti: int, tj: int, r: int, c: int) -> bool {
    eye.hits(win.aim(ti, tj), r, c)
}

/// The grid cell `(r, c)` is visible: the ray toward some cell of the
/// window marks it.
pub open spec fn visible(eye: Vantage, win: Window, r: int, c: int) -> bool {
    exists|ti: int, tj: int| win.holds(ti, tj) && #[trigger] target_hits(eye, win, ti, tj, r, c)
}

/// What cell `(i, j)` of the window shows: the observer at the centre, the
/// tile of the grid cell under it where that cell is visible, and `Blank`
/// everywhere else.
pub open spec fn window_tile(eye: Vantage, win: Window, i: int, j: int) -> Tile {
    let r = win.row_under(eye, i);
    let c = win.col_under(eye, j);
    if i == win.height / 2 && j == win.width / 2 {
        Tile::Player
    } else if visible(eye, win, r, c) {
        eye.map[r]@[c]
    } else {
        Tile::Blank
    }
}

/// `matrix` is what the observer sees in the window: it has the window's
/// size, and every cell of it shows what the window shows there.
pub open spec fn shows(matrix: Seq<Vec<Tile>>, eye: Vantage, win: Window) -> bool {
    &&& has_shape(matrix, win.height, win.width)
    &&& forall|i: int, j: int|
        win.holds(i, j) ==> #[trigger] matrix[i]@[j] == window_tile(eye, win, i, j)
}

/// `after` is `before` with the tile of every grid cell that the ray toward
/// cell `(ti, tj)` marks copied into the cell of the window above it.
pub open spec fn ray_copied(
    before: Seq<Vec<Tile>>,
    after: Seq<Vec<Tile>>,
    eye: Vantage,
    ti: int,
    tj: int,
) -> bool {
    let win = window_of(before);
    &&& has_shape(after, win.height, win.width)
    &&& forall|i: int, j: int|
        win.holds(i, j) ==> #[trigger] after[i]@[j] == (if target_hits(
            eye,
            win,
            ti,
            tj,
            win.row_under(eye, i),
            win.col_under(eye, j),
        ) {
            eye.map[win.row_under(eye, i)]@[win.col_under(eye, j)]
        } else {
            before[i]@[j]
        })
}

/// Some step before the `n`-th of the ray stands on offset `(a, b)`.
spec fn lands_before(aim: Aim, n: int, a: int, b: int) -> bool {
    exists|k: int| 0 <= k < n && #[trigger] aim.offset(k) == (a, b)
}

/// `after` is `before` with the tiles under the first `n` cells of the ray
/// toward cell `(ti, tj)` copied in.
#[verifier::opaque]
spec fn painted(
    before: Seq<Vec<Tile>>,
    after: Seq<Vec<Tile>>,
    eye: Vantage,
    ti: int,
    tj: int,
    n: int,
) -> bool {
    let win = window_of(before);
    &&& has_shape(after, win.height, win.width)
    &&& forall|i: int, j: int|
        win.holds(i, j) ==> #[trigger] after[i]@[j] == (if lands_before(
            win.aim(ti, tj),
            n,
            i - win.height / 2,
            j - win.width / 2,
        ) {
            eye.map[win.row_under(eye, i)]@[win.col_under(eye, j)]
        } else {
            before[i]@[j]
        })
}

proof fn lemma_paint_none(before: Seq<Vec<Tile>>, eye: Vantage, ti: int, tj: int)
    requires
        is_window(before),
    ensures
        painted(before, before, eye, ti, tj, 0),
{
    reveal(painted);
}

proof fn lemma_paint_next(
    before: Seq<Vec<Tile>>,
    mid: Seq<Vec<Tile>>,
    after: Seq<Vec<Tile>>,
    eye: Vantage,
    ti: int,
    tj: int,
    n: int,
    i: int,
    j: int,
)
    requires
        before.len() > 0,
        painted(before, mid, eye, ti, tj, n),
        window_of(before).holds(i, j),
        window_of(before).aim(ti, tj).offset(n) == (
            i - window_of(before).height / 2,
            j - window_of(before).width / 2,
        ),
        0 <= n,
        after.len() == mid.len(),
        forall|a: int| 0 <= a < mid.len() ==> (#[trigger] after[a])@.len() == mid[a]@.len(),
        forall|a: int, b: int|
            window_of(before).holds(a, b) ==> #[trigger] after[a]@[b] == (if a == i && b == j {
                eye.map[window_of(before).row_under(eye, i)]@[window_of(before).col_under(eye, j)]
            } else {
                mid[a]@[b]
            }),
    ensures
        painted(before, after, eye, ti, tj, n + 1),
{
    reveal(painted);
    let win = window_of(before);
    let aim = win.aim(ti, tj);
    assert forall|a: int, b: int| win.holds(a, b) implies #[trigger] after[a]@[b] == (
    if lands_before(aim, n + 1, a - win.height / 2, b - win.width / 2) {
        eye.map[win.row_under(eye, a)]@[win.col_under(eye, b)]
    } else {
        before[a]@[b]
    }) by {
        let (x, y) = (a - win.height / 2, b - win.width / 2);
        if a == i && b == j {
            assert(lands_before(aim, n + 1, x, y));
        } else {
            assert(mid[a]@.len() == win.width);
            if lands_before(aim, n + 1, x, y) {
                let w = choose|w: int| 0 <= w < n + 1 && #[trigger] aim.offset(w) == (x, y);
                assert(w != n);
                assert(lands_before(aim, n, x, y));
            }
            if lands_before(aim, n, x, y) {
                let w = choose|w: int| 0 <= w < n && #[trigger] aim.offset(w) == (x, y);
                assert(lands_before(aim, n + 1, x, y));
            }
        }
    }
}

proof fn lemma_paint_done(
    before: Seq<Vec<Tile>>,
    after: Seq<Vec<Tile>>,
    eye: Vantage,
    ti: int,
    tj: int,
    n: int,
)
    requires
        before.len() > 0,
        painted(before, after, eye, ti, tj, n),
        eye.marks_first(window_of(before).aim(ti, tj), n),
    ensures
        ray_copied(before, after, eye, ti, tj),
{
    reveal(painted);
    reveal(Vantage::marks_first);
    let win = window_of(before);
    let aim = win.aim(ti, tj);
    assert forall|i: int, j: int| win.holds(i, j) implies (target_hits(
        eye,
        win,
        ti,
        tj,
        win.row_under(eye, i),
        win.col_under(eye, j),
    ) <==> lands_before(aim, n, i - win.height / 2, j - win.width / 2)) by {
        let (x, y) = (i - win.height / 2, j - win.width / 2);
        let (r, c) = (win.row_under(eye, i), win.col_under(eye, j));
        if lands_before(aim, n, x, y) {
            let w = choose|w: int| 0 <= w < n && #[trigger] aim.offset(w) == (x, y);
            assert(eye.marks(aim, w));
            assert(aim.offset(w) == (r - eye.row, c - eye.col));
        }
        if eye.hits(aim, r, c) {
            let w = choose|w: int|
                #[trigger] eye.marks(aim, w) && aim.offset(w) == (r - eye.row, c - eye.col);
            assert(0 <= w < n);
            assert(aim.offset(w) == (x, y));
        }
    }
}

/// `origin` moved by `dist` cells, backward or forward, if that stays below
/// `side`.
fn shifted(origin: usize, dist: usize, back: bool, side: usize) -> (res: Option<usize>)
    ensures
        match res {
            Some(x) => x == (if back {
                origin - dist
            } else {
                origin + dist
            }) && x < side,
            None => !(0 <= (if back {
                origin - dist
            } else {
                origin + dist
            }) < side),
        },
{
    if back {
        if dist <= origin && origin - dist < side {
            Some(origin - dist)
        } else {
            None
        }
    } else {
        if origin < side && dist < side - origin {
            Some(origin + dist)
        } else {
            None
        }
    }
}

/// Writes `tile` into cell `(i, j)` of the window.
fn set_cell(v_matrix: &mut Vec<Vec<Tile>>, i: usize, j: usize, tile: Tile)
    requires
        i < old(v_matrix)@.len(),
        j < old(v_matrix)@[i as int]@.len(),
    ensures
        final(v_matrix)@.len() == old(v_matrix)@.len(),
        forall|a: int|
            0 <= a < old(v_matrix)@.len() ==> (#[trigger] final(v_matrix)@[a])@.len() == old(
                v_matrix,
            )@[a]@.len(),
        forall|a: int, b: int|
            0 <= a < old(v_matrix)@.len() && 0 <= b < old(v_matrix)@[a]@.len()
                ==> #[trigger] final(v_matrix)@[a]@[b] == (if a == i && b == j {
                tile
            } else {
                old(v_matrix)@[a]@[b]
            }),
{
    v_matrix[i][j] = tile;
}

/// The tile of the grid under cell `(i, j)` of a window whose centre
/// `(ci, cj)` lies over `(row, col)`, if there is grid under that cell.
fn tile_under(
    map: &Vec<Vec<Tile>>,
    row: usize,
    col: usize,
    ci: usize,
    cj: usize,
    i: usize,
    j: usize,
) -> (res: Option<Tile>)
    requires
        is_square(map@),
    ensures
        match res {
            Some(tile) => inside(map@.len() as int, row + i - ci, col + j - cj) && tile
                == map@[row + i - ci]@[col + j - cj],
            None => !inside(map@.len() as int, row + i - ci, col + j - cj),
        },
{
    let r = if i < ci {
        shifted(row, ci - i, true, map.len())
    } else {
        shifted(row, i - ci, false, map.len())
    };
    let c = if j < cj {
        shifted(col, cj - j, true, map.len())
    } else {
        shifted(col, j - cj, false, map.len())
    };
    match (r, c) {
        (Some(r), Some(c)) => Some(map[r][c]),
        _ => None,
    }
}

/// The line stands, after `k` steps, `m` cells along its minor axis, with
/// `slack` left before the error term exceeds half the major distance.
spec fn line_at(aim: Aim, k: int, m: int, slack: int) -> bool {
    drift(aim.major(), aim.minor(), k) == (m, aim.major() / 2 - slack)
}

/// The aim from the centre `(ci, cj)` of a window at its cell `(ti, tj)`.
spec fn aim_from(ci: usize, cj: usize, ti: usize, tj: usize) -> Aim {
    Aim { dr: ti - ci, dc: tj - cj }
}

/// The cell of the window on which the ray toward `(ti, tj)` stands after
/// `k` steps along its major axis and `m` along its minor axis.
fn cell_of_step(ci: usize, cj: usize, ti: usize, tj: usize, k: usize, m: usize, Ghost(slack): Ghost<
    int,
>) -> (res: (usize, usize))
    requires
        ti <= 2 * ci,
        tj <= 2 * cj,
        k <= aim_from(ci, cj, ti, tj).major(),
        line_at(aim_from(ci, cj, ti, tj), k as int, m as int, slack),
    ensures
        aim_from(ci, cj, ti, tj).offset(k as int) == (res.0 - ci, res.1 - cj),
        ti < ci ==> ti <= res.0 <= ci,
        ti >= ci ==> ci <= res.0 <= ti,
        tj < cj ==> tj <= res.1 <= cj,
        tj >= cj ==> cj <= res.1 <= tj,
{
    let up = ti < ci;
    let left = tj < cj;
    let rows: usize = if up {
        ci - ti
    } else {
        ti - ci
    };
    let cols: usize = if left {
        cj - tj
    } else {
        tj - cj
    };
    proof {
        let aim = aim_from(ci, cj, ti, tj);
        lemma_drift_bounds(aim.major(), aim.minor(), k as int);
    }
    let (a, b) = if cols <= rows {
        (k, m)
    } else {
        (m, k)
    };
    let i: usize = if up {
        ci - a
    } else {
        ci + a
    };
    let j: usize = if left {
        cj - b
    } else {
        cj + b
    };
    (i, j)
}

/// One step of the line: the minor position and the slack after step
/// `k + 1`.
fn line_step(major: usize, minor: usize, m: usize, slack: usize, Ghost(aim): Ghost<Aim>, Ghost(
    k,
): Ghost<int>) -> (res: (usize, usize))
    requires
        major == aim.major(),
        minor == aim.minor(),
        0 <= k < major,
        line_at(aim, k, m as int, slack as int),
    ensures
        line_at(aim, k + 1, res.0 as int, res.1 as int),
{
    proof {
        lemma_drift_bounds(major as int, minor as int, k);
    }
    if minor > slack {
        (m + 1, slack + (major - minor))
    } else {
        (m, slack - minor)
    }
}

/// Casts the ray from the observer at `(row, col)` toward cell `(ti, tj)` of
/// the window `v_matrix`, and copies into the window the tile of every grid
/// cell that the ray marks. All other cells of the window keep what they
/// held.
pub fn cast_ray(
    map: &Vec<Vec<Tile>>,
    row: usize,
    col: usize,
    ti: usize,
    tj: usize,
    v_matrix: &mut Vec<Vec<Tile>>,
)
    requires
        is_square(map@),
        inside(map@.len() as int, row as int, col as int),
        is_window(old(v_matrix)@),
        window_of(old(v_matrix)@).holds(ti as int, tj as int),
    ensures
        ray_copied(old(v_matrix)@, final(v_matrix)@, vantage(map, row, col), ti as int, tj as int),
{
    let height = v_matrix.len();
    let width = v_matrix[0].len();
    let ci = height / 2;
    let cj = width / 2;
    let rows: usize = if ti < ci {
        ci - ti
    } else {
        ti - ci
    };
    let cols: usize = if tj < cj {
        cj - tj
    } else {
        tj - cj
    };
    let major: usize = if cols <= rows {
        rows
    } else {
        cols
    };
    let minor: usize = if cols <= rows {
        cols
    } else {
        rows
    };
    let ghost eye = vantage(map, row, col);
    let ghost orig = v_matrix@;
    let ghost win = window_of(orig);
    let ghost aim = win.aim(ti as int, tj as int);

    let mut k: usize = 0;
    let mut m: usize = 0;
    // What is left before the error term exceeds half the major distance.
    let mut slack: usize = major / 2;
    let mut limit: usize = major;
    // Whether the grid's edge or an opaque cell has ended the walk.
    let mut stopped = false;
    // How many cells are marked so far.
    let ghost mut marked: int = 0;
    proof {
        lemma_walk_start(eye, aim);
        lemma_paint_none(orig, eye, ti as int, tj as int);
    }

    while !stopped && k <= limit
        invariant
            is_square(map@),
            eye == vantage(map, row, col),
            is_window(orig),
            win == window_of(orig),
            win.holds(ti as int, tj as int),
            ci == win.height / 2,
            cj == win.width / 2,
            aim == aim_from(ci, cj, ti, tj),
            major == aim.major(),
            minor == aim.minor(),
            limit <= major < usize::MAX,
            k <= limit + 1,
            0 <= marked,
            !stopped ==> marked == k && eye.walking(aim, k as int, limit as int),
            !stopped && k <= major ==> line_at(aim, k as int, m as int, slack as int),
            has_shape(v_matrix@, win.height, win.width),
            stopped ==> eye.marks_first(aim, marked),
            eye.marks_up_to(aim, marked),
            painted(orig, v_matrix@, eye, ti as int, tj as int, marked),
        decreases
                (if stopped {
                    0int
                } else {
                    limit + 1 - k
                }),
    {
        let (i, j) = cell_of_step(ci, cj, ti, tj, k, m, Ghost(slack as int));
        match tile_under(map, row, col, ci, cj, i, j) {
            Some(tile) => {
                let ghost mid = v_matrix@;
                set_cell(v_matrix, i, j, tile);
                proof {
                    lemma_walk_marks(eye, aim, k as int, limit as int);
                    lemma_paint_next(
                        orig,
                        mid,
                        v_matrix@,
                        eye,
                        ti as int,
                        tj as int,
                        k as int,
                        i as int,
                        j as int,
                    );
                    marked = k + 1;
                }
                if !is_clear(tile) {
                    stopped = true;
                    proof {
                        lemma_walk_blocked(eye, aim, k as int);
                    }
                } else {
                    let ghost old_limit = limit;
                    if k != 0 && tile == Tile::Tree && limit - k > TREE_REACH {
                        limit = k + TREE_REACH;
                    }
                    proof {
                        lemma_walk_step(eye, aim, k as int, old_limit as int, limit as int);
                    }
                    if k < major {
                        let (m2, slack2) = line_step(major, minor, m, slack, Ghost(aim), Ghost(k as int));
                        m = m2;
                        slack = slack2;
                    }
                    k = k + 1;
                }
            },
            None => {
                stopped = true;
                proof {
                    lemma_walk_off_grid(eye, aim, k as int);
                }
            },
        }
    }
    proof {
        if !stopped {
            lemma_walk_spent(eye, aim, k as int, limit as int);
        }
        lemma_paint_done(orig, v_matrix@, eye, ti as int, tj as int, marked);
    }
}

/// Some cell of the window that comes before `(ti, tj)` in reading order is
/// the target of a ray that marks the grid cell `(r, c)`.
spec fn seen_before(eye: Vantage, win: Window, ti: int, tj: int, r: int, c: int) -> bool {
    exists|a: int, b: int|
        win.holds(a, b) && (a < ti || (a == ti && b < tj)) && #[trigger] target_hits(
            eye,
            win,
            a,
            b,
            r,
            c,
        )
}

/// The matrix shows what the rays toward the cells before `(ti, tj)` have
/// marked, and is blank elsewhere.
#[verifier::opaque]
spec fn swept(matrix: Seq<Vec<Tile>>, eye: Vantage, win: Window, ti: int, tj: int) -> bool {
    &&& has_shape(matrix, win.height, win.width)
    &&& forall|i: int, j: int|
        win.holds(i, j) ==> #[trigger] matrix[i]@[j] == (if seen_before(
            eye,
            win,
            ti,
            tj,
            win.row_under(eye, i),
            win.col_under(eye, j),
        ) {
            eye.map[win.row_under(eye, i)]@[win.col_under(eye, j)]
        } else {
            Tile::Blank
        })
}

proof fn lemma_sweep_start(matrix: Seq<Vec<Tile>>, eye: Vantage, win: Window)
    requires
        has_shape(matrix, win.height, win.width),
        forall|i: int, j: int| win.holds(i, j) ==> #[trigger] matrix[i]@[j] == Tile::Blank,
    ensures
        swept(matrix, eye, win, 0, 0),
{
    reveal(swept);
}

proof fn lemma_sweep_next(
    before: Seq<Vec<Tile>>,
    after: Seq<Vec<Tile>>,
    eye: Vantage,
    win: Window,
    ti: int,
    tj: int,
)
    requires
        win.holds(ti, tj),
        swept(before, eye, win, ti, tj),
        ray_copied(before, after, eye, ti, tj),
    ensures
        swept(after, eye, win, ti, tj + 1),
{
    reveal(swept);
    assert(before[0]@.len() == win.width);
    assert(window_of(before) == win);
    assert forall|i: int, j: int| win.holds(i, j) implies #[trigger] after[i]@[j] == (
    if seen_before(eye, win, ti, tj + 1, win.row_under(eye, i), win.col_under(eye, j)) {
        eye.map[win.row_under(eye, i)]@[win.col_under(eye, j)]
    } else {
        Tile::Blank
    }) by {
        let r = win.row_under(eye, i);
        let c = win.col_under(eye, j);
        if target_hits(eye, win, ti, tj, r, c) {
            assert(seen_before(eye, win, ti, tj + 1, r, c));
        } else if seen_before(eye, win, ti, tj, r, c) {
            let (a, b) = choose|a: int, b: int|
                win.holds(a, b) && (a < ti || (a == ti && b < tj)) && #[trigger] target_hits(
                    eye,
                    win,
                    a,
                    b,
                    r,
                    c,
                );
            assert(win.holds(a, b) && (a < ti || (a == ti && b < tj + 1)) && target_hits(
                eye,
                win,
                a,
                b,
                r,
                c,
            ));
        } else if seen_before(eye, win, ti, tj + 1, r, c) {
            let (a, b) = choose|a: int, b: int|
                win.holds(a, b) && (a < ti || (a == ti && b < tj + 1)) && #[trigger] target_hits(
                    eye,
                    win,
                    a,
                    b,
                    r,
                    c,
                );
            assert(!(a == ti && b == tj));
            assert(win.holds(a, b) && (a < ti || (a == ti && b < tj)) && target_hits(
                eye,
                win,
                a,
                b,
                r,
                c,
            ));
        }
    }
}

proof fn lemma_sweep_row(matrix: Seq<Vec<Tile>>, eye: Vantage, win: Window, ti: int)
    requires
        swept(matrix, eye, win, ti, win.width),
    ensures
        swept(matrix, eye, win, ti + 1, 0),
{
    reveal(swept);
    assert forall|r: int, c: int|
        seen_before(eye, win, ti, win.width, r, c) <==> seen_before(eye, win, ti + 1, 0, r, c) by {
        if seen_before(eye, win, ti, win.width, r, c) {
            let (a, b) = choose|a: int, b: int|
                win.holds(a, b) && (a < ti || (a == ti && b < win.width))
                    && #[trigger] target_hits(eye, win, a, b, r, c);
            assert(win.holds(a, b) && (a < ti + 1 || (a == ti + 1 && b < 0)) && target_hits(
                eye,
                win,
                a,
                b,
                r,
                c,
            ));
        }
        if seen_before(eye, win, ti + 1, 0, r, c) {
            let (a, b) = choose|a: int, b: int|
                win.holds(a, b) && (a < ti + 1 || (a == ti + 1 && b < 0))
                    && #[trigger] target_hits(eye, win, a, b, r, c);
            assert(win.holds(a, b) && (a < ti || (a == ti && b < win.width)) && target_hits(
                eye,
                win,
                a,
                b,
                r,
                c,
            ));
        }
    }
}

proof fn lemma_sweep_done(matrix: Seq<Vec<Tile>>, eye: Vantage, win: Window)
    requires
        swept(matrix, eye, win, win.height, 0),
    ensures
        has_shape(matrix, win.height, win.width),
        forall|i: int, j: int|
            win.holds(i, j) && !(i == win.height / 2 && j == win.width / 2)
                ==> #[trigger] matrix[i]@[j] == window_tile(eye, win, i, j),
{
    reveal(swept);
    assert forall|r: int, c: int|
        seen_before(eye, win, win.height, 0, r, c) <==> visible(eye, win, r, c) by {
        if seen_before(eye, win, win.height, 0, r, c) {
            let (a, b) = choose|a: int, b: int|
                win.holds(a, b) && (a < win.height || (a == win.height && b < 0))
                    && #[trigger] target_hits(eye, win, a, b, r, c);
            assert(win.holds(a, b) && target_hits(eye, win, a, b, r, c));
        }
        if visible(eye, win, r, c) {
            let (a, b) = choose|a: int, b: int|
                win.holds(a, b) && #[trigger] target_hits(eye, win, a, b, r, c);
            assert(win.holds(a, b) && (a < win.height || (a == win.height && b < 0))
                && target_hits(eye, win, a, b, r, c));
        }
    }
}

/// A window of `height` rows and `width` columns in which nothing is seen.
fn blank_window(height: usize, width: usize) -> (matrix: Vec<Vec<Tile>>)
    ensures
        has_shape(matrix@, height as int, width as int),
        forall|i: int, j: int|
            window(height, width).holds(i, j) ==> #[trigger] matrix@[i]@[j] == Tile::Blank,
{
    let mut matrix: Vec<Vec<Tile>> = Vec::new();
    let mut i: usize = 0;
    while i < height
        invariant
            i <= height,
            has_shape(matrix@, i as int, width as int),
            forall|a: int, b: int|
                0 <= a < i && 0 <= b < width ==> #[trigger] matrix@[a]@[b] == Tile::Blank,
        decreases height - i,
    {
        let row = vec![Tile::Blank; width];
        matrix.push(row);
        i += 1;
    }
    matrix
}

/// What an observer at `(player_row, player_col)` sees in a window of
/// `height` rows and `width` columns centred on its own cell.
///
/// A ray is cast toward every cell of the window. A cell of the window shows
/// the tile of the grid cell under it if some ray marks that cell, and
/// `Blank` if none does or no grid lies under it. The centre shows `Player`.
pub fn calc_v_matrix(
    map: &Vec<Vec<Tile>>,
    player_row: usize,
    player_col: usize,
    height: usize,
    width: usize,
) -> (v_matrix: Vec<Vec<Tile>>)
    requires
        is_square(map@),
        inside(map@.len() as int, player_row as int, player_col as int),
        height % 2 == 1,
        width % 2 == 1,
    ensures
        shows(v_matrix@, vantage(map, player_row, player_col), window(height, width)),
        v_matrix@[height as int / 2]@[width as int / 2] == Tile::Player,
{
    let mut v_matrix = blank_window(height, width);
    let ghost eye = vantage(map, player_row, player_col);
    let ghost win = window(height, width);
    proof {
        lemma_sweep_start(v_matrix@, eye, win);
    }
    let mut ti: usize = 0;
    while ti < height
        invariant
            is_square(map@),
            inside(map@.len() as int, player_row as int, player_col as int),
            eye == vantage(map, player_row, player_col),
            win == window(height, width),
            height > 0,
            width > 0,
            ti <= height,
            has_shape(v_matrix@, win.height, win.width),
            swept(v_matrix@, eye, win, ti as int, 0),
        decreases height - ti,
    {
        let mut tj: usize = 0;
        while tj < width
            invariant
                is_square(map@),
                inside(map@.len() as int, player_row as int, player_col as int),
                eye == vantage(map, player_row, player_col),
                win == window(height, width),
                height > 0,
                width > 0,
                ti < height,
                tj <= width,
                has_shape(v_matrix@, win.height, win.width),
                swept(v_matrix@, eye, win, ti as int, tj as int),
            decreases width - tj,
        {
            let ghost before = v_matrix@;
            cast_ray(map, player_row, player_col, ti, tj, &mut v_matrix);
            proof {
                lemma_sweep_next(before, v_matrix@, eye, win, ti as int, tj as int);
            }
            tj += 1;
        }
        proof {
            lemma_sweep_row(v_matrix@, eye, win, ti as int);
        }
        ti += 1;
    }
    proof {
        lemma_sweep_done(v_matrix@, eye, win);
    }
    set_cell(&mut v_matrix, height / 2, width / 2, Tile::Player);
    v_matrix
}

/// What an observer at `(player_row, player_col)` sees in the window that the
/// game shows, `FOV_HEIGHT` rows of `FOV_WIDTH` columns.
pub fn compute_visibility(map: &Vec<Vec<Tile>>, player_row: usize, player_col: usize) -> (v_matrix:
    Vec<Vec<Tile>>)
    requires
        is_square(map@),
        inside(map@.len() as int, player_row as int, player_col as int),
    ensures
        shows(v_matrix@, vantage(map, player_row, player_col), window(FOV_HEIGHT, FOV_WIDTH)),
        v_matrix@[FOV_HEIGHT as int / 2]@[FOV_WIDTH as int / 2] == Tile::Player,
{
    calc_v_matrix(map, player_row, player_col, FOV_HEIGHT, FOV_WIDTH)
}

} // verus!
