//! The line that a ray of sight walks, and which of its cells the ray marks.
//!
//! A ray leaves the observer toward a target cell. It advances one cell at a
//! time along its major axis, the one on which the target lies farther away,
//! and keeps an error term for the other axis: each step adds the minor
//! distance to the error, and once the error exceeds half the major distance
//! the ray also moves one cell along the minor axis and the major distance is
//! taken off the error again.
//!
//! The ray marks the cells on which it stands, the observer's own first. It
//! ends at its target, at the first cell off the grid, which it does not
//! mark, and at the first opaque cell, which it does. A tree, unless the
//! observer stands on it, lets the ray go on for `TREE_REACH` cells and no
//! farther.

use vstd::prelude::*;
use crate::map::{clear, inside, Tile};

verus! {

/// How many cells past a tree a ray still travels.
pub const TREE_REACH: usize = 3;

/// A grid and the cell of it from which an observer looks.
pub struct Vantage {
    pub map: Seq<Vec<Tile>>,
    pub row: int,
    pub col: int,
}

/// Where a ray is aimed: the target's offset from the observer, in rows and
/// in columns.
pub struct Aim {
    pub dr: int,
    pub dc: int,
}

/// The absolute value of `d`.
pub open spec fn magnitude(d: int) -> int {
    if d < 0 {
        -d
    } else {
        d
    }
}

/// The state of the line after `k` steps along the major axis: how many steps
/// it has taken along the minor axis, and the error term.
pub open spec fn drift(major: int, minor: int, k: int) -> (int, int)
    decreases k,
{
    if k <= 0 {
        (0, 0)
    } else {
        let (m, e) = drift(major, minor, k - 1);
        if e + minor > major / 2 {
            (m + 1, e + minor - major)
        } else {
            (m, e + minor)
        }
    }
}

impl Aim {
    /// Rows are the major axis unless the target lies strictly farther away
    /// in columns.
    pub open spec fn rows_lead(self) -> bool {
        magnitude(self.dc) <= magnitude(self.dr)
    }

    /// The distance to the target along the major axis.
    pub open spec fn major(self) -> int {
        if self.rows_lead() {
            magnitude(self.dr)
        } else {
            magnitude(self.dc)
        }
    }

    /// The distance to the target along the minor axis.
    pub open spec fn minor(self) -> int {
        if self.rows_lead() {
            magnitude(self.dc)
        } else {
            magnitude(self.dr)
        }
    }

    /// Where the ray stands after `k` steps, as an offset from the
    /// observer: `k` cells along the major axis and as many along the minor
    /// axis as the line has drifted, each toward the target.
    pub open spec fn offset(self, k: int) -> (int, int) {
        let m = drift(self.major(), self.minor(), k).0;
        let (rows, cols) = if self.rows_lead() {
            (k, m)
        } else {
            (m, k)
        };
        (
            if self.dr < 0 {
                -rows
            } else {
                rows
            },
            if self.dc < 0 {
                -cols
            } else {
                cols
            },
        )
    }
}

impl Vantage {
    /// Whether the `k`-th cell of the ray lies on the grid.
    pub open spec fn on_grid(self, aim: Aim, k: int) -> bool {
        inside(self.map.len() as int, self.row + aim.offset(k).0, self.col + aim.offset(k).1)
    }

    /// The tile under the `k`-th cell of the ray.
    pub open spec fn tile(self, aim: Aim, k: int) -> Tile {
        self.map[self.row + aim.offset(k).0]@[self.col + aim.offset(k).1]
    }

    /// The `j`-th cell of the ray lets the ray go on as far as its `k`-th
    /// cell: it lies on the grid, sight passes through it, and if it is a
    /// tree other than the observer's own cell, the `k`-th cell is at most
    /// `TREE_REACH` steps beyond it.
    pub open spec fn lets_through(self, aim: Aim, j: int, k: int) -> bool {
        &&& self.on_grid(aim, j)
        &&& clear(self.tile(aim, j))
        &&& (j >= 1 && self.tile(aim, j) is Tree ==> k <= j + TREE_REACH)
    }

    /// The ray marks its `k`-th cell: the cell is no farther than the
    /// target, lies on the grid, and every cell before it lets the ray
    /// through to it.
    pub open spec fn marks(self, aim: Aim, k: int) -> bool {
        &&& 0 <= k <= aim.major()
        &&& self.on_grid(aim, k)
        &&& forall|j: int| 0 <= j < k ==> #[trigger] self.lets_through(aim, j, k)
    }

    /// The ray marks the grid cell `(r, c)`.
    pub open spec fn hits(self, aim: Aim, r: int, c: int) -> bool {
        exists|k: int|
            #[trigger] self.marks(aim, k) && aim.offset(k) == (r - self.row, c - self.col)
    }

    /// The walk of the ray has come to its `k`-th cell with `limit` as the
    /// last step it may still take: every cell before the `k`-th lets it
    /// through as far as `limit`, and `limit` is the distance to the target
    /// unless a tree behind the walk has cut it short.
    #[verifier::opaque]
    pub open spec fn walking(self, aim: Aim, k: int, limit: int) -> bool {
        &&& 0 <= k
        &&& limit <= aim.major()
        &&& forall|j: int| 0 <= j < k ==> #[trigger] self.lets_through(aim, j, limit)
        &&& (limit == aim.major() || exists|j: int|
            1 <= j < k && #[trigger] self.tile(aim, j) is Tree && limit == j + TREE_REACH)
    }

    /// The ray marks each of its first `n` cells.
    #[verifier::opaque]
    pub open spec fn marks_up_to(self, aim: Aim, n: int) -> bool {
        forall|j: int| 0 <= j < n ==> #[trigger] self.marks(aim, j)
    }

    /// The ray marks each of its first `n` cells and none after them.
    #[verifier::opaque]
    pub open spec fn marks_first(self, aim: Aim, n: int) -> bool {
        forall|j: int| 0 <= j ==> (j < n <==> #[trigger] self.marks(aim, j))
    }
}

/// The error term after `k` steps is the distance, in units of `1 / major`,
/// by which the ideal line lies ahead of the walk on the minor axis, and it
/// stays within half a cell.
pub proof fn lemma_drift_error(major: int, minor: int, k: int)
    requires
        0 <= minor <= major,
        0 <= k,
    ensures
        0 <= drift(major, minor, k).0 <= k,
        drift(major, minor, k).1 == k * minor - drift(major, minor, k).0 * major,
        major / 2 - major < drift(major, minor, k).1 <= major / 2 || major == 0,
        major == 0 ==> drift(major, minor, k).1 == 0,
    decreases k,
{
    if k > 0 {
        lemma_drift_error(major, minor, k - 1);
        let m0 = drift(major, minor, k - 1).0;
        assert(k * minor == (k - 1) * minor + minor) by (nonlinear_arith);
        assert((m0 + 1) * major == m0 * major + major) by (nonlinear_arith);
    }
}

/// The line never strays: after `k` of its `major` steps it has taken at most
/// `minor` steps sideways, and never more than `k`.
pub proof fn lemma_drift_bounds(major: int, minor: int, k: int)
    requires
        0 <= minor <= major,
        0 <= k <= major,
    ensures
        0 <= drift(major, minor, k).0 <= minor,
        drift(major, minor, k).0 <= k,
        major / 2 - major < drift(major, minor, k).1 <= major / 2 || major == 0,
        major == 0 ==> drift(major, minor, k).1 == 0,
{
    lemma_drift_error(major, minor, k);
    let (m, e) = drift(major, minor, k);
    if major > 0 {
        assert(m <= minor) by (nonlinear_arith)
            requires
                e == k * minor - m * major,
                e > major / 2 - major,
                major / 2 >= 0,
                0 <= k <= major,
                0 <= minor <= major,
                major > 0,
        {
            assert(k * minor <= major * minor);
            assert(m * major < major * (minor + 1));
        }
    }
}

/// The line never steps back on its minor axis.
pub proof fn lemma_drift_monotone(major: int, minor: int, j: int, k: int)
    requires
        0 <= minor <= major,
        0 <= j <= k,
    ensures
        0 <= drift(major, minor, j).0 <= drift(major, minor, k).0,
    decreases k,
{
    lemma_drift_error(major, minor, j);
    if j < k {
        lemma_drift_monotone(major, minor, j, k - 1);
    }
}

/// A line with nothing to cover on its minor axis never leaves its major
/// axis.
pub proof fn lemma_drift_straight(major: int, k: int)
    requires
        0 <= major,
    ensures
        drift(major, 0, k) == (0int, 0int),
    decreases k,
{
    if k > 0 {
        lemma_drift_straight(major, k - 1);
    }
}

/// A line that has as far to go on its minor axis as on its major axis steps
/// sideways every time.
pub proof fn lemma_drift_diagonal(major: int, k: int)
    requires
        1 <= major,
        0 <= k,
    ensures
        drift(major, major, k) == (k, 0int),
    decreases k,
{
    if k > 0 {
        lemma_drift_diagonal(major, k - 1);
    }
}

/// A line that has stepped sideways every time so far has done so from the
/// start.
pub proof fn lemma_drift_full(major: int, minor: int, j: int, k: int)
    requires
        0 <= minor <= major,
        0 <= j <= k,
        drift(major, minor, k).0 == k,
    ensures
        drift(major, minor, j).0 == j,
    decreases k,
{
    lemma_drift_error(major, minor, j);
    if j < k {
        lemma_drift_error(major, minor, k - 1);
        lemma_drift_full(major, minor, j, k - 1);
    }
}

/// Before its first step a walk has the whole distance to its target ahead.
pub proof fn lemma_walk_start(eye: Vantage, aim: Aim)
    ensures
        eye.walking(aim, 0, aim.major()),
        eye.marks_up_to(aim, 0),
{
    reveal(Vantage::walking);
    reveal(Vantage::marks_up_to);
}

/// A walk that comes to a cell on the grid within its limit marks that cell.
pub proof fn lemma_walk_marks(eye: Vantage, aim: Aim, k: int, limit: int)
    requires
        eye.walking(aim, k, limit),
        eye.marks_up_to(aim, k),
        k <= limit,
        eye.on_grid(aim, k),
    ensures
        eye.marks(aim, k),
        eye.marks_up_to(aim, k + 1),
{
    reveal(Vantage::walking);
    reveal(Vantage::marks_up_to);
    assert forall|j: int| 0 <= j < k implies #[trigger] eye.lets_through(aim, j, k) by {
        assert(eye.lets_through(aim, j, limit));
    }
}

/// A walk goes on from a clear cell on the grid; a tree other than the
/// observer's own cell leaves it at most `TREE_REACH` further steps.
pub proof fn lemma_walk_step(eye: Vantage, aim: Aim, k: int, limit: int, next_limit: int)
    requires
        eye.walking(aim, k, limit),
        k <= limit,
        eye.on_grid(aim, k),
        clear(eye.tile(aim, k)),
        next_limit == (if k >= 1 && eye.tile(aim, k) is Tree && limit > k + TREE_REACH {
            k + TREE_REACH
        } else {
            limit
        }),
    ensures
        eye.walking(aim, k + 1, next_limit),
{
    reveal(Vantage::walking);
    assert forall|j: int| 0 <= j < k + 1 implies #[trigger] eye.lets_through(
        aim,
        j,
        next_limit,
    ) by {
        if j < k {
            assert(eye.lets_through(aim, j, limit));
        }
    }
    if next_limit != aim.major() {
        if next_limit == limit {
            let t = choose|t: int|
                1 <= t < k && #[trigger] eye.tile(aim, t) is Tree && limit == t + TREE_REACH;
            assert(1 <= t < k + 1 && eye.tile(aim, t) is Tree && next_limit == t + TREE_REACH);
        } else {
            assert(1 <= k < k + 1 && eye.tile(aim, k) is Tree && next_limit == k + TREE_REACH);
        }
    }
}

/// A walk that has used up its limit marks nothing more.
pub proof fn lemma_walk_spent(eye: Vantage, aim: Aim, k: int, limit: int)
    requires
        eye.walking(aim, k, limit),
        eye.marks_up_to(aim, k),
        k > limit,
    ensures
        eye.marks_first(aim, k),
{
    reveal(Vantage::walking);
    reveal(Vantage::marks_up_to);
    reveal(Vantage::marks_first);
    assert forall|j: int| k <= j implies !#[trigger] eye.marks(aim, j) by {
        if limit != aim.major() {
            let t = choose|t: int|
                1 <= t < k && #[trigger] eye.tile(aim, t) is Tree && limit == t + TREE_REACH;
            if eye.marks(aim, j) {
                assert(eye.lets_through(aim, t, j));
            }
        }
    }
}

/// A walk that comes to a cell off the grid marks neither that cell nor any
/// after it.
pub proof fn lemma_walk_off_grid(eye: Vantage, aim: Aim, k: int)
    requires
        0 <= k,
        eye.marks_up_to(aim, k),
        !eye.on_grid(aim, k),
    ensures
        eye.marks_first(aim, k),
{
    reveal(Vantage::marks_up_to);
    reveal(Vantage::marks_first);
    assert forall|j: int| k <= j implies !#[trigger] eye.marks(aim, j) by {
        if j > k && eye.marks(aim, j) {
            assert(eye.lets_through(aim, k, j));
        }
    }
}

/// A walk that marks an opaque cell marks nothing after it.
pub proof fn lemma_walk_blocked(eye: Vantage, aim: Aim, k: int)
    requires
        0 <= k,
        eye.marks_up_to(aim, k + 1),
        !clear(eye.tile(aim, k)),
    ensures
        eye.marks_first(aim, k + 1),
{
    reveal(Vantage::marks_up_to);
    reveal(Vantage::marks_first);
    assert forall|j: int| k + 1 <= j implies !#[trigger] eye.marks(aim, j) by {
        if eye.marks(aim, j) {
            assert(eye.lets_through(aim, k, j));
        }
    }
}

} // verus!
