//! The order of work of the island's heightmap.
//!
//! The heightmap is a square field of elevations whose side is one more than
//! a power of two. Its corners are seeded at random. The field is then filled
//! by midpoint displacement: the centre of a square is set from its four
//! corners, the midpoints of its four edges are set from their neighbours
//! along the axes, and the same is done in each of the four quarters, down to
//! squares of three cells a side. One smoothing pass over the whole field
//! follows.
//!
//! This module works out, from the side of the field alone, which cell each
//! step sets and which cells it averages. The arithmetic on the elevations
//! is the caller's.

use vstd::arithmetic::power2::{lemma_pow2_pos, lemma_pow2_unfold, pow2};
use vstd::prelude::*;
use crate::map::inside;

verus! {

/// One step of the work: the cell `(row, col)` becomes the mean of the cells
/// in `sources`, taken in that order, and is then displaced at random. The
/// displacement is in proportion to `span`, the side of the square that the
/// step belongs to or half of it, and to the scale of the level `depth`, which
/// grows from each level of squares to the next finer one. A step of span 0 is
/// not displaced.
#[derive(Debug, Clone, PartialEq, Eq)]
pub struct Update {
    pub row: usize,
    pub col: usize,
    pub sources: Vec<(usize, usize)>,
    pub span: usize,
    pub depth: usize,
}

/// What an `Update` says, in mathematical terms.
pub struct Stencil {
    pub row: int,
    pub col: int,
    pub sources: Seq<(int, int)>,
    pub span: int,
    pub depth: int,
}

/// A cell with its coordinates as integers.
pub open spec fn cell_view(cell: (usize, usize)) -> (int, int) {
    (cell.0 as int, cell.1 as int)
}

impl View for Update {
    type V = Stencil;

    open spec fn view(&self) -> Stencil {
        Stencil {
            row: self.row as int,
            col: self.col as int,
            sources: self.sources@.map_values(|cell: (usize, usize)| cell_view(cell)),
            span: self.span as int,
            depth: self.depth as int,
        }
    }
}

/// The steps of a list of updates, in order.
pub open spec fn steps(updates: Seq<Update>) -> Seq<Stencil> {
    updates.map_values(|u: Update| u@)
}

/// A square can be halved down to squares of three cells a side: its side is
/// one more than a power of two, and at least 3.
pub open spec fn is_span(width: int) -> bool
    decreases width,
{
    width == 3 || (width > 3 && width % 2 == 1 && is_span(width / 2 + 1))
}

/// Whether a field of this side can be filled: the side is one more than a
/// power of two, and at least 3.
pub open spec fn valid_size(size: int) -> bool {
    exists|k: nat| 1 <= k && size == #[trigger] pow2(k) + 1
}

/// One more than the `k`-th power of two can be halved down to three, for
/// every `k` from 1 on.
pub proof fn lemma_power_is_span(k: nat)
    requires
        1 <= k,
    ensures
        is_span(pow2(k) as int + 1),
    decreases k,
{
    lemma_pow2_unfold(k);
    if k == 1 {
        lemma_pow2_unfold(1);
        assert(pow2(0) == 1) by {
            lemma_pow2_pos(0);
            vstd::arithmetic::power2::lemma2_to64();
        }
    } else {
        lemma_power_is_span((k - 1) as nat);
        lemma_pow2_unfold((k - 1) as nat);
        lemma_pow2_pos((k - 2) as nat);
    }
}

/// A side that can be halved down to three is one more than a power of two.
pub proof fn lemma_span_is_power(width: int) -> (k: nat)
    requires
        is_span(width),
    ensures
        1 <= k,
        width == pow2(k) + 1,
    decreases width,
{
    if width == 3 {
        vstd::arithmetic::power2::lemma2_to64();
        1
    } else {
        let k = lemma_span_is_power(width / 2 + 1);
        lemma_pow2_unfold(k + 1);
        k + 1
    }
}

/// The sides that can be filled are those that can be halved down to three.
pub proof fn lemma_valid_size_is_span(size: int)
    ensures
        valid_size(size) <==> is_span(size),
{
    if valid_size(size) {
        let k = choose|k: nat| 1 <= k && size == #[trigger] pow2(k) + 1;
        lemma_power_is_span(k);
    }
    if is_span(size) {
        let k = lemma_span_is_power(size);
    }
}

/// Whether a field of side `size` can be filled.
pub fn is_valid_size(size: usize) -> (res: bool)
    ensures
        res == valid_size(size as int),
{
    proof {
        lemma_valid_size_is_span(size as int);
    }
    let mut width = size;
    while width > 3 && width % 2 == 1
        invariant
            is_span(width as int) == is_span(size as int),
        decreases width,
    {
        width = width / 2 + 1;
    }
    width == 3
}

/// The four corners of a field of side `size`, in the order in which they
/// are seeded.
pub fn corners(size: usize) -> (res: [(usize, usize); 4])
    requires
        size >= 1,
    ensures
        res@ =~= seq![
            (0usize, 0usize),
            (0usize, (size - 1) as usize),
            ((size - 1) as usize, 0usize),
            ((size - 1) as usize, (size - 1) as usize),
        ],
{
    [(0, 0), (0, size - 1), (size - 1, 0), (size - 1, size - 1)]
}

/// The diamond step on the square of side `width` whose top left corner is
/// `(r, c)`: its centre is set from its four corners.
pub open spec fn diamond_stencil(r: int, c: int, width: int, depth: int) -> Stencil {
    Stencil {
        row: r + width / 2,
        col: c + width / 2,
        sources: seq![
            (r, c),
            (r, c + width - 1),
            (r + width - 1, c),
            (r + width - 1, c + width - 1),
        ],
        span: width,
        depth,
    }
}

/// The cell `(r, c)` if it lies in a field of side `size`, and nothing
/// otherwise.
pub open spec fn if_inside(size: int, r: int, c: int) -> Seq<(int, int)> {
    if inside(size, r, c) {
        seq![(r, c)]
    } else {
        Seq::empty()
    }
}

/// The cells `dist` away from `(r, c)` to the left, to the right, above and
/// below, in that order, without those that fall outside the field.
pub open spec fn axis_neighbours(size: int, r: int, c: int, dist: int) -> Seq<(int, int)> {
    if_inside(size, r, c - dist) + if_inside(size, r, c + dist) + if_inside(size, r - dist, c)
        + if_inside(size, r + dist, c)
}

/// The step that sets `(r, c)` from its neighbours `dist` away along the
/// axes.
pub open spec fn edge_stencil(size: int, r: int, c: int, dist: int, depth: int) -> Stencil {
    Stencil { row: r, col: c, sources: axis_neighbours(size, r, c, dist), span: dist, depth }
}

/// The square step around the centre `(r, c)` of a square of side `width`:
/// the midpoints of the top, bottom, left and right edge, in that order.
pub open spec fn square_steps(size: int, r: int, c: int, width: int, depth: int) -> Seq<Stencil> {
    let half = width / 2;
    seq![
        edge_stencil(size, r - half, c, half, depth),
        edge_stencil(size, r + half, c, half, depth),
        edge_stencil(size, r, c - half, half, depth),
        edge_stencil(size, r, c + half, half, depth),
    ]
}

/// All the steps on the square of side `width` whose top left corner is
/// `(r, c)`: its own diamond and square step, then those of its top left,
/// top right, bottom left and bottom right quarter, each one level deeper.
pub open spec fn diamond_sq_steps(size: int, r: int, c: int, width: int, depth: int) -> Seq<
    Stencil,
>
    decreases width,
{
    let half = width / 2;
    let own = seq![diamond_stencil(r, c, width, depth)] + square_steps(
        size,
        r + half,
        c + half,
        width,
        depth,
    );
    if width <= 3 {
        own
    } else {
        own + diamond_sq_steps(size, r, c, half + 1, depth + 1) + diamond_sq_steps(
            size,
            r,
            c + half,
            half + 1,
            depth + 1,
        ) + diamond_sq_steps(size, r + half, c, half + 1, depth + 1) + diamond_sq_steps(
            size,
            r + half,
            c + half,
            half + 1,
            depth + 1,
        )
    }
}

/// The diamond step on the square of side `width` at `(r, c)`.
pub fn diamond_step(r: usize, c: usize, width: usize, depth: usize) -> (u: Update)
    requires
        width >= 1,
        r + width <= usize::MAX,
        c + width <= usize::MAX,
    ensures
        u@ == diamond_stencil(r as int, c as int, width as int, depth as int),
{
    let mut sources: Vec<(usize, usize)> = Vec::new();
    sources.push((r, c));
    sources.push((r, c + width - 1));
    sources.push((r + width - 1, c));
    sources.push((r + width - 1, c + width - 1));
    let u = Update { row: r + width / 2, col: c + width / 2, sources, span: width, depth };
    assert(u@.sources =~= diamond_stencil(r as int, c as int, width as int, depth as int).sources);
    u
}

/// The step that sets the cell `(r, c)` of a field of side `size` from those
/// of its neighbours `width` away along the axes that lie in the field.
pub fn calc_diamond_avg(size: usize, r: usize, c: usize, width: usize, depth: usize) -> (u: Update)
    requires
        r < size,
        c < size,
    ensures
        u@ == edge_stencil(size as int, r as int, c as int, width as int, depth as int),
{
    let mut sources: Vec<(usize, usize)> = Vec::new();
    if width <= c {
        sources.push((r, c - width));
    }
    if width < size - c {
        sources.push((r, c + width));
    }
    if width <= r {
        sources.push((r - width, c));
    }
    if width < size - r {
        sources.push((r + width, c));
    }
    let u = Update { row: r, col: c, sources, span: width, depth };
    assert(u@.sources =~= axis_neighbours(size as int, r as int, c as int, width as int));
    u
}

/// Appends the square step around the centre `(r, c)` of a square of side
/// `width`.
pub fn square_step(
    size: usize,
    r: usize,
    c: usize,
    width: usize,
    depth: usize,
    out: &mut Vec<Update>,
)
    requires
        width / 2 <= r,
        width / 2 <= c,
        r + width / 2 < size,
        c + width / 2 < size,
    ensures
        steps(final(out)@) == steps(old(out)@) + square_steps(
            size as int,
            r as int,
            c as int,
            width as int,
            depth as int,
        ),
{
    let half_width = width / 2;
    let ghost before = out@;
    out.push(calc_diamond_avg(size, r - half_width, c, half_width, depth));
    out.push(calc_diamond_avg(size, r + half_width, c, half_width, depth));
    out.push(calc_diamond_avg(size, r, c - half_width, half_width, depth));
    out.push(calc_diamond_avg(size, r, c + half_width, half_width, depth));
    assert(steps(out@) =~= steps(before) + square_steps(
        size as int,
        r as int,
        c as int,
        width as int,
        depth as int,
    ));
}

/// Appends all the steps on the square of side `width` at `(r, c)`, in the
/// order in which they are to be carried out.
pub fn diamond_sq(size: usize, r: usize, c: usize, width: usize, depth: usize, out: &mut Vec<Update>)
    requires
        is_span(width as int),
        r + width <= size,
        c + width <= size,
        depth + width <= usize::MAX,
    ensures
        steps(final(out)@) == steps(old(out)@) + diamond_sq_steps(
            size as int,
            r as int,
            c as int,
            width as int,
            depth as int,
        ),
    decreases width,
{
    let ghost before = out@;
    out.push(diamond_step(r, c, width, depth));
    let half_width = width / 2;
    square_step(size, r + half_width, c + half_width, width, depth, out);
    assert(steps(out@) =~= steps(before) + (seq![
        diamond_stencil(r as int, c as int, width as int, depth as int),
    ] + square_steps(
        size as int,
        r + half_width,
        c + half_width,
        width as int,
        depth as int,
    )));

    if half_width == 1 {
        return ;
    }
    diamond_sq(size, r, c, half_width + 1, depth + 1, out);
    diamond_sq(size, r, c + half_width, half_width + 1, depth + 1, out);
    diamond_sq(size, r + half_width, c, half_width + 1, depth + 1, out);
    diamond_sq(size, r + half_width, c + half_width, half_width + 1, depth + 1, out);
    assert(steps(out@) =~= steps(before) + diamond_sq_steps(
        size as int,
        r as int,
        c as int,
        width as int,
        depth as int,
    ));
}

/// All the displacement steps that fill a field of side `size`, in order.
pub fn diamond_square(size: usize) -> (plan: Vec<Update>)
    requires
        valid_size(size as int),
    ensures
        steps(plan@) == diamond_sq_steps(size as int, 0, 0, size as int, 0),
{
    let mut plan: Vec<Update> = Vec::new();
    proof {
        lemma_valid_size_is_span(size as int);
    }
    diamond_sq(size, 0, 0, size, 0, &mut plan);
    assert(steps(plan@) =~= diamond_sq_steps(size as int, 0, 0, size as int, 0));
    plan
}

/// The cell `(r, c)` and those of the eight cells around it that lie in a
/// field of side `width`, row by row.
pub open spec fn block_neighbours(width: int, r: int, c: int) -> Seq<(int, int)> {
    seq![(r, c)] + if_inside(width, r - 1, c - 1) + if_inside(width, r - 1, c) + if_inside(
        width,
        r - 1,
        c + 1,
    ) + if_inside(width, r, c - 1) + if_inside(width, r, c + 1) + if_inside(width, r + 1, c - 1)
        + if_inside(width, r + 1, c) + if_inside(width, r + 1, c + 1)
}

/// The smoothing step on `(r, c)`: the cell becomes the mean of itself and
/// of its neighbours in the field, and is not displaced.
pub open spec fn smooth_stencil(width: int, r: int, c: int) -> Stencil {
    Stencil { row: r, col: c, sources: block_neighbours(width, r, c), span: 0, depth: 0 }
}

/// The smoothing step on the cell `(r, c)` of a field of side `width`.
pub fn smooth_step(width: usize, r: usize, c: usize) -> (u: Update)
    requires
        r < width,
        c < width,
    ensures
        u@ == smooth_stencil(width as int, r as int, c as int),
{
    let mut sources: Vec<(usize, usize)> = Vec::new();
    sources.push((r, c));

    if r >= 1 {
        if c >= 1 {
            sources.push((r - 1, c - 1));
        }
        sources.push((r - 1, c));
        if c + 1 < width {
            sources.push((r - 1, c + 1));
        }
    }

    if c >= 1 {
        sources.push((r, c - 1));
    }
    if c + 1 < width {
        sources.push((r, c + 1));
    }

    if r + 1 < width {
        if c >= 1 {
            sources.push((r + 1, c - 1));
        }
        sources.push((r + 1, c));
        if c + 1 < width {
            sources.push((r + 1, c + 1));
        }
    }
    let u = Update { row: r, col: c, sources, span: 0, depth: 0 };
    assert(u@.sources =~= block_neighbours(width as int, r as int, c as int));
    u
}

/// `plan` smooths the first `rows` rows of a field of side `width`: row `r`
/// of the plan holds the smoothing steps on row `r` of the field, from left
/// to right.
pub open spec fn smooths(plan: Seq<Vec<Update>>, width: int, rows: int) -> bool {
    &&& plan.len() == rows
    &&& forall|r: int| 0 <= r < rows ==> (#[trigger] plan[r])@.len() == width
    &&& forall|r: int, c: int|
        0 <= r < rows && 0 <= c < width ==> (#[trigger] plan[r]@[c])@ == smooth_stencil(width, r, c)
}

/// The smoothing pass over a field of side `width`: one step for every cell,
/// to be carried out row by row and, within a row, from left to right, each
/// on the field as the steps before it have left it.
pub fn smooth_map(width: usize) -> (plan: Vec<Vec<Update>>)
    ensures
        smooths(plan@, width as int, width as int),
{
    let mut plan: Vec<Vec<Update>> = Vec::new();
    let mut r: usize = 0;
    while r < width
        invariant
            r <= width,
            smooths(plan@, width as int, r as int),
        decreases width - r,
    {
        let mut row: Vec<Update> = Vec::new();
        let mut c: usize = 0;
        while c < width
            invariant
                r < width,
                c <= width,
                row@.len() == c,
                forall|k: int| 0 <= k < c ==> (#[trigger] row@[k])@ == smooth_stencil(width as int, r as int, k),
            decreases width - c,
        {
            row.push(smooth_step(width, r, c));
            c += 1;
        }
        plan.push(row);
        r += 1;
    }
    plan
}

/// A step is well placed in a field of side `size`: the cell that it sets
/// and the cells that it averages lie in the field, and there are `low` to
/// `high` of the latter.
pub open spec fn well_placed(size: int, step: Stencil, low: int, high: int) -> bool {
    &&& inside(size, step.row, step.col)
    &&& low <= step.sources.len() <= high
    &&& forall|i: int|
        0 <= i < step.sources.len() ==> inside(
            size,
            (#[trigger] step.sources[i]).0,
            step.sources[i].1,
        )
}

/// Every smoothing step lies in the field: it averages the cell that it
/// sets, first, and up to eight more cells of the field, at least three
/// more unless the field is a single cell.
pub proof fn lemma_smooth_well_placed(width: int, r: int, c: int)
    requires
        inside(width, r, c),
    ensures
        well_placed(width, smooth_stencil(width, r, c), 1, 9),
        smooth_stencil(width, r, c).sources[0] == (r, c),
        width >= 2 ==> smooth_stencil(width, r, c).sources.len() >= 4,
{
}

/// Some step of `plan` sets the cell `(a, b)`.
pub open spec fn sets_cell(plan: Seq<Stencil>, a: int, b: int) -> bool {
    exists|i: int| 0 <= i < plan.len() && (#[trigger] plan[i]).row == a && plan[i].col == b
}

/// Whether `(a, b)` is a corner of the square of side `width` at `(r, c)`.
pub open spec fn is_corner(r: int, c: int, width: int, a: int, b: int) -> bool {
    (a == r || a == r + width - 1) && (b == c || b == c + width - 1)
}

proof fn lemma_sets_cell_concat(x: Seq<Stencil>, y: Seq<Stencil>, a: int, b: int)
    ensures
        sets_cell(x + y, a, b) <==> sets_cell(x, a, b) || sets_cell(y, a, b),
{
    if sets_cell(x, a, b) {
        let i = choose|i: int| 0 <= i < x.len() && (#[trigger] x[i]).row == a && x[i].col == b;
        assert((x + y)[i] == x[i]);
    }
    if sets_cell(y, a, b) {
        let i = choose|i: int| 0 <= i < y.len() && (#[trigger] y[i]).row == a && y[i].col == b;
        assert((x + y)[x.len() + i] == y[i]);
    }
    if sets_cell(x + y, a, b) {
        let i = choose|i: int|
            0 <= i < (x + y).len() && (#[trigger] (x + y)[i]).row == a && (x + y)[i].col == b;
        if i < x.len() {
            assert(x[i] == (x + y)[i]);
        } else {
            assert(y[i - x.len()] == (x + y)[i]);
        }
    }
}

/// The side of a square that can be halved is odd and at least 3, and so is
/// the side of its quarters unless the square has three cells a side.
pub proof fn lemma_span_halves(width: int)
    requires
        is_span(width),
    ensures
        width >= 3,
        width % 2 == 1,
        width == 2 * (width / 2) + 1,
        width > 3 ==> is_span(width / 2 + 1),
        width == 3 <==> width / 2 == 1,
    decreases width,
{
    if width > 3 {
        lemma_span_halves(width / 2 + 1);
    }
}

/// Every step of the displacement lies in the field: the cell that it sets
/// does, the cells that it averages do, and there are three or four of
/// them, so that the mean is always taken over something.
pub proof fn lemma_steps_well_placed(size: int, r: int, c: int, width: int, depth: int, i: int)
    requires
        is_span(width),
        0 <= r,
        0 <= c,
        r + width <= size,
        c + width <= size,
        0 <= i < diamond_sq_steps(size, r, c, width, depth).len(),
    ensures
        well_placed(size, diamond_sq_steps(size, r, c, width, depth)[i], 3, 4),
        diamond_sq_steps(size, r, c, width, depth)[i].span >= 1,
        diamond_sq_steps(size, r, c, width, depth)[i].depth >= depth,
    decreases width,
{
    lemma_span_halves(width);
    let half = width / 2;
    let own = seq![diamond_stencil(r, c, width, depth)] + square_steps(
        size,
        r + half,
        c + half,
        width,
        depth,
    );
    assert(own.len() == 5);
    if i < 5 {
        assert(diamond_sq_steps(size, r, c, width, depth)[i] == own[i]);
        if i == 0 {
            assert(own[0] == diamond_stencil(r, c, width, depth));
        } else {
            let steps = square_steps(size, r + half, c + half, width, depth);
            assert(own[i] == steps[i - 1]);
        }
    } else {
        let q = half + 1;
        let top_left = diamond_sq_steps(size, r, c, q, depth + 1);
        let top_right = diamond_sq_steps(size, r, c + half, q, depth + 1);
        let bottom_left = diamond_sq_steps(size, r + half, c, q, depth + 1);
        let bottom_right = diamond_sq_steps(size, r + half, c + half, q, depth + 1);
        let all = diamond_sq_steps(size, r, c, width, depth);
        assert(all == own + top_left + top_right + bottom_left + bottom_right);
        let j = i - 5;
        if j < top_left.len() {
            assert(all[i] == top_left[j]);
            lemma_steps_well_placed(size, r, c, q, depth + 1, j);
        } else if j < top_left.len() + top_right.len() {
            assert(all[i] == top_right[j - top_left.len()]);
            lemma_steps_well_placed(size, r, c + half, q, depth + 1, j - top_left.len());
        } else if j < top_left.len() + top_right.len() + bottom_left.len() {
            assert(all[i] == bottom_left[j - top_left.len() - top_right.len()]);
            lemma_steps_well_placed(size, r + half, c, q, depth + 1, j - top_left.len() - top_right.len());
        } else {
            assert(all[i] == bottom_right[j - top_left.len() - top_right.len() - bottom_left.len()]);
            lemma_steps_well_placed(
                size,
                r + half,
                c + half,
                q,
                depth + 1,
                j - top_left.len() - top_right.len() - bottom_left.len(),
            );
        }
    }
}

/// The displacement leaves no hole: every cell of a square but its four
/// corners is set by some step on that square.
pub proof fn lemma_steps_cover(size: int, r: int, c: int, width: int, depth: int, a: int, b: int)
    requires
        is_span(width),
        r <= a < r + width,
        c <= b < c + width,
        !is_corner(r, c, width, a, b),
    ensures
        sets_cell(diamond_sq_steps(size, r, c, width, depth), a, b),
    decreases width,
{
    lemma_span_halves(width);
    let half = width / 2;
    let own = seq![diamond_stencil(r, c, width, depth)] + square_steps(
        size,
        r + half,
        c + half,
        width,
        depth,
    );
    let all = diamond_sq_steps(size, r, c, width, depth);
    let on_lines = (a == r || a == r + half || a == r + 2 * half) && (b == c || b == c + half || b
        == c + 2 * half);
    if on_lines {
        // One of the five cells that the square's own steps set.
        let i: int = if a == r + half && b == c + half {
            0
        } else if a == r {
            1
        } else if a == r + 2 * half {
            2
        } else if b == c {
            3
        } else {
            4
        };
        assert(own[i].row == a && own[i].col == b);
        assert(sets_cell(own, a, b));
        if width > 3 {
            let q = half + 1;
            let top_left = diamond_sq_steps(size, r, c, q, depth + 1);
            let top_right = diamond_sq_steps(size, r, c + half, q, depth + 1);
            let bottom_left = diamond_sq_steps(size, r + half, c, q, depth + 1);
            let bottom_right = diamond_sq_steps(size, r + half, c + half, q, depth + 1);
            lemma_sets_cell_concat(own, top_left, a, b);
            lemma_sets_cell_concat(own + top_left, top_right, a, b);
            lemma_sets_cell_concat(own + top_left + top_right, bottom_left, a, b);
            lemma_sets_cell_concat(own + top_left + top_right + bottom_left, bottom_right, a, b);
        }
    } else {
        // Strictly inside one of the quarters, or on one of its edges.
        let q = half + 1;
        let qr = if a <= r + half {
            r
        } else {
            r + half
        };
        let qc = if b <= c + half {
            c
        } else {
            c + half
        };
        lemma_steps_cover(size, qr, qc, q, depth + 1, a, b);
        let top_left = diamond_sq_steps(size, r, c, q, depth + 1);
        let top_right = diamond_sq_steps(size, r, c + half, q, depth + 1);
        let bottom_left = diamond_sq_steps(size, r + half, c, q, depth + 1);
        let bottom_right = diamond_sq_steps(size, r + half, c + half, q, depth + 1);
        lemma_sets_cell_concat(own, top_left, a, b);
        lemma_sets_cell_concat(own + top_left, top_right, a, b);
        lemma_sets_cell_concat(own + top_left + top_right, bottom_left, a, b);
        lemma_sets_cell_concat(own + top_left + top_right + bottom_left, bottom_right, a, b);
    }
}

/// A field that has been seeded and displaced has no hole: every cell but
/// the four seeded corners is set by some step of the displacement.
pub proof fn lemma_field_is_filled(size: int, a: int, b: int)
    requires
        valid_size(size),
        inside(size, a, b),
        !is_corner(0, 0, size, a, b),
    ensures
        sets_cell(diamond_sq_steps(size, 0, 0, size, 0), a, b),
{
    lemma_valid_size_is_span(size);
    lemma_steps_cover(size, 0, 0, size, 0, a, b);
}

} // verus!
