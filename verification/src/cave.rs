//! Caves grown by one generation of a cellular automaton on a grid of
//! walls (`true`) and floors (`false`).

use vstd::prelude::*;
use vstd::string::StringExecFns;
use crate::disjoint_set::{ds_find, Cell, DisjointSet, Entry};

verus! {

/// A grid of `depth` rows and `width` columns.
pub open spec fn is_grid(grid: Seq<Vec<bool>>, width: int, depth: int) -> bool {
    &&& grid.len() == depth
    &&& forall|r: int| 0 <= r < grid.len() ==> (#[trigger] grid[r])@.len() == width
}

/// Whether the cell at offset `(dr, dc)` from `(row, col)` counts as a
/// wall: every cell beyond the top and the left edge does, and so does
/// every cell in the row just below the grid and in the column just right
/// of it; a cell of the grid does if it is a wall, except the cell in the
/// top left corner of the grid, which never counts.
pub open spec fn counts_as_wall(
    grid: Seq<Vec<bool>>,
    row: int,
    col: int,
    width: int,
    depth: int,
    dr: int,
    dc: int,
) -> bool {
    let nr = row + dr;
    let nc = col + dc;
    if nr < 0 || nc < 0 || nr == depth || nc == width {
        true
    } else {
        !(nr == 0 && nc == 0) && grid[nr]@[nc]
    }
}

/// How many of the first `n` cells of the row at offset `dr` count as
/// walls, from the column at offset -1 on.
pub open spec fn walls_in_row(
    grid: Seq<Vec<bool>>,
    row: int,
    col: int,
    width: int,
    depth: int,
    dr: int,
    n: int,
) -> int
    decreases n,
{
    if n <= 0 {
        0
    } else {
        walls_in_row(grid, row, col, width, depth, dr, n - 1) + (if counts_as_wall(
            grid,
            row,
            col,
            width,
            depth,
            dr,
            n - 2,
        ) {
            1int
        } else {
            0int
        })
    }
}

/// How many cells of the first `n` rows of the three by three block around
/// `(row, col)` count as walls, from the row at offset -1 on.
pub open spec fn walls_in_rows(
    grid: Seq<Vec<bool>>,
    row: int,
    col: int,
    width: int,
    depth: int,
    n: int,
) -> int
    decreases n,
{
    if n <= 0 {
        0
    } else {
        walls_in_rows(grid, row, col, width, depth, n - 1) + walls_in_row(
            grid,
            row,
            col,
            width,
            depth,
            n - 2,
            3,
        )
    }
}

/// How many cells of the three by three block around `(row, col)` count as
/// walls, the cell itself among them.
pub open spec fn walls_around(grid: Seq<Vec<bool>>, row: int, col: int, width: int, depth: int) -> int {
    walls_in_rows(grid, row, col, width, depth, 3)
}

/// How many cells of the three by three block around `(row, col)` count as
/// walls.
pub fn count_neighbouring_walls(grid: &Vec<Vec<bool>>, row: i32, col: i32, width: i32, depth: i32) -> (adj_walls:
    u32)
    requires
        is_grid(grid@, width as int, depth as int),
        0 <= row < depth,
        0 <= col < width,
    ensures
        adj_walls == walls_around(grid@, row as int, col as int, width as int, depth as int),
        adj_walls <= 9,
{
    let mut adj_walls: u32 = 0;
    let ghost g = grid@;

    let mut r: i32 = -1;
    while r < 2
        invariant
            -1 <= r <= 2,
            g == grid@,
            is_grid(g, width as int, depth as int),
            0 <= row < depth,
            0 <= col < width,
            adj_walls == walls_in_rows(g, row as int, col as int, width as int, depth as int, r + 1),
            adj_walls <= 3 * (r + 1),
        decreases 2 - r,
    {
        let ghost before = adj_walls;
        let mut c: i32 = -1;
        while c < 2
            invariant
                -1 <= r < 2,
                -1 <= c <= 2,
                g == grid@,
                is_grid(g, width as int, depth as int),
                0 <= row < depth,
                0 <= col < width,
                before <= 3 * (r + 1),
                adj_walls == before + walls_in_row(
                    g,
                    row as int,
                    col as int,
                    width as int,
                    depth as int,
                    r as int,
                    c + 1,
                ),
                adj_walls <= before + (c + 1),
            decreases 2 - c,
        {
            let nr = row + r;
            let nc = col + c;
            if nr < 0 || nc < 0 || nr == depth || nc == width {
                adj_walls += 1;
            } else if !(nr == 0 && nc == 0) && grid[nr as usize][nc as usize] {
                adj_walls += 1;
            }
            c += 1;
        }
        r += 1;
    }

    adj_walls
}

/// What becomes of a cell with `adj_walls` walls around it: with fewer than
/// four it is a floor, with more than five a wall, and otherwise it stays
/// what it `was`.
pub open spec fn next_cell(adj_walls: int, was: bool) -> bool {
    if adj_walls < 4 {
        false
    } else if adj_walls > 5 {
        true
    } else {
        was
    }
}

/// Whether `(r, c)` lies on the border of a grid of `depth` rows and
/// `width` columns.
pub open spec fn on_border(width: int, depth: int, r: int, c: int) -> bool {
    r == 0 || c == 0 || r == depth - 1 || c == width - 1
}

/// `next` is the generation after `grid`: every cell off the border is what
/// the walls around it make of it, and every cell on the border is a floor.
pub open spec fn is_next_generation(
    grid: Seq<Vec<bool>>,
    next: Seq<Vec<bool>>,
    width: int,
    depth: int,
) -> bool {
    &&& is_grid(next, width, depth)
    &&& forall|r: int, c: int|
        0 <= r < depth && 0 <= c < width ==> #[trigger] next[r]@[c] == (if on_border(
            width,
            depth,
            r,
            c,
        ) {
            false
        } else {
            next_cell(walls_around(grid, r, c, width, depth), grid[r]@[c])
        })
}

/// A row of `width` floors.
fn floor_row(width: usize) -> (row: Vec<bool>)
    ensures
        row@.len() == width,
        forall|c: int| 0 <= c < width ==> !#[trigger] row@[c],
{
    let mut row: Vec<bool> = Vec::new();
    let mut c: usize = 0;
    while c < width
        invariant
            c <= width,
            row@.len() == c,
            forall|k: int| 0 <= k < c ==> !#[trigger] row@[k],
        decreases width - c,
    {
        row.push(false);
        c += 1;
    }
    row
}

/// Row `r` of the generation after `grid`.
fn next_row(grid: &Vec<Vec<bool>>, r: usize, width: usize, depth: usize) -> (row: Vec<bool>)
    requires
        is_grid(grid@, width as int, depth as int),
        width <= i32::MAX,
        depth <= i32::MAX,
        r < depth,
    ensures
        row@.len() == width,
        forall|c: int|
            0 <= c < width ==> #[trigger] row@[c] == (if on_border(
                width as int,
                depth as int,
                r as int,
                c,
            ) {
                false
            } else {
                next_cell(
                    walls_around(grid@, r as int, c, width as int, depth as int),
                    grid@[r as int]@[c],
                )
            }),
{
    let mut row = floor_row(width);
    if r == 0 || r == depth - 1 || width < 2 {
        return row;
    }
    let mut c: usize = 1;
    while c < width - 1
        invariant
            is_grid(grid@, width as int, depth as int),
            width <= i32::MAX,
            depth <= i32::MAX,
            0 < r < depth - 1,
            1 <= c <= width - 1,
            row@.len() == width,
            forall|k: int|
                0 <= k < width ==> #[trigger] row@[k] == (if on_border(
                    width as int,
                    depth as int,
                    r as int,
                    k,
                ) || k >= c {
                    false
                } else {
                    next_cell(
                        walls_around(grid@, r as int, k, width as int, depth as int),
                        grid@[r as int]@[k],
                    )
                }),
        decreases width - c,
    {
        let adj_walls = count_neighbouring_walls(grid, r as i32, c as i32, width as i32, depth as i32);

        if adj_walls < 4 {
            row[c] = false;
        } else if adj_walls > 5 {
            row[c] = true;
        } else {
            row[c] = grid[r][c];
        }
        c += 1;
    }
    row
}

/// The generation after `grid`, with floors all along the border.
pub fn next_generation(grid: &Vec<Vec<bool>>, width: usize, depth: usize) -> (next_gen: Vec<Vec<bool>>)
    requires
        is_grid(grid@, width as int, depth as int),
        width <= i32::MAX,
        depth <= i32::MAX,
    ensures
        is_next_generation(grid@, next_gen@, width as int, depth as int),
{
    let mut next_gen: Vec<Vec<bool>> = Vec::new();
    let mut r: usize = 0;
    while r < depth
        invariant
            is_grid(grid@, width as int, depth as int),
            width <= i32::MAX,
            depth <= i32::MAX,
            r <= depth,
            next_gen@.len() == r,
            forall|i: int| 0 <= i < r ==> (#[trigger] next_gen@[i])@.len() == width,
            forall|i: int, c: int|
                0 <= i < r && 0 <= c < width ==> #[trigger] next_gen@[i]@[c] == (if on_border(
                    width as int,
                    depth as int,
                    i,
                    c,
                ) {
                    false
                } else {
                    next_cell(
                        walls_around(grid@, i, c, width as int, depth as int),
                        grid@[i]@[c],
                    )
                }),
        decreases depth - r,
    {
        next_gen.push(next_row(grid, r, width, depth));
        r += 1;
    }
    next_gen
}

/// `after` is `before` with a wall on every cell of the border.
pub open spec fn is_walled(before: Seq<Vec<bool>>, after: Seq<Vec<bool>>, width: int, depth: int) -> bool {
    &&& is_grid(after, width, depth)
    &&& forall|r: int, c: int|
        0 <= r < depth && 0 <= c < width ==> #[trigger] after[r]@[c] == (on_border(
            width,
            depth,
            r,
            c,
        ) || before[r]@[c])
}

/// Puts a wall on every cell of the border of the grid.
pub fn set_border(grid: &mut Vec<Vec<bool>>, width: usize, depth: usize)
    requires
        is_grid(old(grid)@, width as int, depth as int),
        width >= 1,
        depth >= 1,
    ensures
        is_walled(old(grid)@, final(grid)@, width as int, depth as int),
{
    let ghost before = grid@;
    let mut c: usize = 0;
    while c < width
        invariant
            c <= width,
            width >= 1,
            depth >= 1,
            is_grid(before, width as int, depth as int),
            is_grid(grid@, width as int, depth as int),
            forall|i: int, k: int|
                0 <= i < depth && 0 <= k < width ==> #[trigger] grid@[i]@[k] == (((i == 0 || i
                    == depth - 1) && k < c) || before[i]@[k]),
        decreases width - c,
    {
        grid[0][c] = true;
        grid[depth - 1][c] = true;
        c += 1;
    }
    if depth < 2 {
        return ;
    }
    let mut r: usize = 1;
    while r < depth - 1
        invariant
            1 <= r <= depth - 1,
            width >= 1,
            is_grid(before, width as int, depth as int),
            is_grid(grid@, width as int, depth as int),
            forall|i: int, k: int|
                0 <= i < depth && 0 <= k < width ==> #[trigger] grid@[i]@[k] == ((i == 0 || i
                    == depth - 1 || ((k == 0 || k == width - 1) && i < r)) || before[i]@[k]),
        decreases depth - r,
    {
        grid[r][0] = true;
        grid[r][width - 1] = true;
        r += 1;
    }
}

/// The character that shows a cell of a cave: `#` for a wall, `.` for a
/// floor.
pub open spec fn cave_char(wall: bool) -> char {
    if wall {
        '#'
    } else {
        '.'
    }
}

/// `lines` draws `grid`, row for row and cell for cell.
pub open spec fn draws(grid: Seq<Vec<bool>>, lines: Seq<String>) -> bool {
    &&& lines.len() == grid.len()
    &&& forall|r: int| 0 <= r < grid.len() ==> (#[trigger] lines[r])@.len() == grid[r]@.len()
    &&& forall|r: int, c: int|
        0 <= r < grid.len() && 0 <= c < grid[r]@.len() ==> #[trigger] lines[r]@[c] == cave_char(
            grid[r]@[c],
        )
}

/// The drawing of one row of a cave.
fn cave_line(row: &Vec<bool>) -> (s: String)
    ensures
        s@.len() == row@.len(),
        forall|c: int| 0 <= c < row@.len() ==> #[trigger] s@[c] == cave_char(row@[c]),
{
    proof {
        reveal_strlit("#");
        reveal_strlit(".");
    }
    let mut s = String::new();
    let mut c: usize = 0;
    while c < row.len()
        invariant
            c <= row@.len(),
            s@.len() == c,
            forall|k: int| 0 <= k < c ==> #[trigger] s@[k] == cave_char(row@[k]),
            "#"@ == seq!['#'],
            "."@ == seq!['.'],
        decreases row@.len() - c,
    {
        if row[c] {
            s.append("#");
        } else {
            s.append(".");
        }
        c += 1;
    }
    s
}

/// The drawing of a cave, one line of text for each row.
pub fn dump_cave(grid: &Vec<Vec<bool>>) -> (lines: Vec<String>)
    ensures
        draws(grid@, lines@),
{
    let mut lines: Vec<String> = Vec::new();
    let mut r: usize = 0;
    while r < grid.len()
        invariant
            r <= grid@.len(),
            lines@.len() == r,
            forall|i: int| 0 <= i < r ==> (#[trigger] lines@[i])@.len() == grid@[i]@.len(),
            forall|i: int, c: int|
                0 <= i < r && 0 <= c < grid@[i]@.len() ==> #[trigger] lines@[i]@[c] == cave_char(
                    grid@[i]@[c],
                ),
        decreases grid@.len() - r,
    {
        lines.push(cave_line(&grid[r]));
        r += 1;
    }
    lines
}

/// The floors among the cells of row `r` from column 1 up to, but without,
/// column `n`, each standing for a set of its own of size 1.
pub open spec fn floors_in_row(grid: Seq<Vec<bool>>, r: int, n: int) -> Seq<Entry>
    decreases n,
{
    if n <= 1 {
        Seq::empty()
    } else if grid[r]@[n - 1] {
        floors_in_row(grid, r, n - 1)
    } else {
        floors_in_row(grid, r, n - 1).push(((r as usize, (n - 1) as usize), 1u32))
    }
}

/// The floors off the border in the rows from row 1 up to, but without, row
/// `n`, row by row.
pub open spec fn floors_in_rows(grid: Seq<Vec<bool>>, width: int, n: int) -> Seq<Entry>
    decreases n,
{
    if n <= 1 {
        Seq::empty()
    } else {
        floors_in_rows(grid, width, n - 1) + floors_in_row(grid, n - 1, width - 1)
    }
}

/// Makes every floor off the border of the cave a set of its own, and gives
/// the entries of these floors, row by row.
pub fn cave_qa(grid: &Vec<Vec<bool>>, width: usize, depth: usize) -> (sets: Vec<Entry>)
    requires
        is_grid(grid@, width as int, depth as int),
        width >= 1,
        depth >= 1,
    ensures
        sets@ == floors_in_rows(grid@, width as int, depth - 1),
{
    let mut ds = DisjointSet::new();
    let mut sets: Vec<Entry> = Vec::new();

    let mut r: usize = 1;
    while r < depth - 1
        invariant
            is_grid(grid@, width as int, depth as int),
            width >= 1,
            depth >= 1,
            1 <= r,
            r <= depth - 1 || r == 1,
            sets@ == floors_in_rows(grid@, width as int, r as int),
            forall|cell: Cell| #[trigger] ds@.dom().contains(cell) ==> cell.0 < r,
        decreases depth - r,
    {
        let ghost before = sets@;
        let mut c: usize = 1;
        while c < width - 1
            invariant
                is_grid(grid@, width as int, depth as int),
                width >= 1,
                1 <= r < depth - 1,
                1 <= c,
                c <= width - 1 || c == 1,
                sets@ == before + floors_in_row(grid@, r as int, c as int),
                forall|cell: Cell|
                    #[trigger] ds@.dom().contains(cell) ==> cell.0 < r || (cell.0 == r && cell.1
                        < c),
            decreases width - c,
        {
            if !grid[r][c] {
                let f = ds_find(&mut ds, (r, c));
                sets.push(f);
            }
            assert(sets@ =~= before + floors_in_row(grid@, r as int, c + 1));
            c += 1;
        }
        assert(floors_in_row(grid@, r as int, c as int) == floors_in_row(
            grid@,
            r as int,
            width - 1,
        ));
        r += 1;
    }
    assert(floors_in_rows(grid@, width as int, r as int) == floors_in_rows(
        grid@,
        width as int,
        depth - 1,
    ));
    sets
}

} // verus!
