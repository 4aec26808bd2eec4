//! First steps toward finding a path: distances, and whether the goal lies
//! right next to a cell that the walker can step on at once.

use vstd::prelude::*;
use crate::map::{inside, is_passable, is_square, passable, Tile};

verus! {

/// The distance between `a` and `b` on one axis.
pub open spec fn gap(a: int, b: int) -> int {
    if a < b {
        b - a
    } else {
        a - b
    }
}

/// The Manhattan distance between `(ax, ay)` and `(bx, by)`.
pub open spec fn manhattan(ax: int, ay: int, bx: int, by: int) -> int {
    gap(ax, bx) + gap(ay, by)
}

/// The Manhattan distance between `(ax, ay)` and `(bx, by)`.
pub fn manhattan_d(ax: usize, ay: usize, bx: usize, by: usize) -> (d: usize)
    requires
        manhattan(ax as int, ay as int, bx as int, by as int) <= usize::MAX,
    ensures
        d == manhattan(ax as int, ay as int, bx as int, by as int),
{
    let dx = if ax < bx {
        bx - ax
    } else {
        ax - bx
    };
    let dy = if ay < by {
        by - ay
    } else {
        ay - by
    };
    dx + dy
}

/// Whether `(ax, ay)` and `(bx, by)` are at most one step apart, along an
/// axis.
fn is_next_to(ax: usize, ay: usize, bx: usize, by: usize) -> (res: bool)
    ensures
        res == (manhattan(ax as int, ay as int, bx as int, by as int) <= 1),
{
    let near_x = if ax < bx {
        bx - ax <= 1
    } else {
        ax - bx <= 1
    };
    let near_y = if ay < by {
        by - ay <= 1
    } else {
        ay - by <= 1
    };
    near_x && near_y && manhattan_d(ax, ay, bx, by) <= 1
}

/// The cell `(r, c)` is a way in to `(end_r, end_c)`: it can be stepped on
/// and lies at most one step, along an axis, from the goal.
pub open spec fn way_in(map: Seq<Vec<Tile>>, r: int, c: int, end_r: int, end_c: int) -> bool {
    passable(map[r]@[c]) && manhattan(r, c, end_r, end_c) <= 1
}

/// One of the eight cells around `(r, c)` is a way in to the goal.
pub open spec fn goal_in_reach(map: Seq<Vec<Tile>>, r: int, c: int, end_r: int, end_c: int) -> bool {
    exists|dr: int, dc: int|
        -1 <= dr <= 1 && -1 <= dc <= 1 && !(dr == 0 && dc == 0) && #[trigger] way_in(
            map,
            r + dr,
            c + dc,
            end_r,
            end_c,
        )
}

/// Whether the goal `(end_r, end_c)` is found from `(start_r, start_c)` in
/// one step: whether one of the eight cells around the start is a way in
/// to it.
pub fn find_path(
    map: &Vec<Vec<Tile>>,
    start_r: usize,
    start_c: usize,
    end_r: usize,
    end_c: usize,
) -> (found: bool)
    requires
        is_square(map@),
        1 <= start_r,
        1 <= start_c,
        start_r + 1 < map@.len(),
        start_c + 1 < map@.len(),
        inside(map@.len() as int, end_r as int, end_c as int),
    ensures
        found == goal_in_reach(map@, start_r as int, start_c as int, end_r as int, end_c as int),
{
    let ghost m = map@;
    let ghost sr = start_r as int;
    let ghost sc = start_c as int;
    let ghost er = end_r as int;
    let ghost ec = end_c as int;
    assert(map@.len() == map.len());
    let mut r: usize = 0;
    while r < 3
        invariant
            r <= 3,
            m == map@,
            is_square(m),
            sr == start_r,
            sc == start_c,
            er == end_r,
            ec == end_c,
            1 <= sr,
            1 <= sc,
            sr + 1 < m.len(),
            sc + 1 < m.len(),
            m.len() <= usize::MAX,
            inside(m.len() as int, er, ec),
            forall|dr: int, dc: int|
                -1 <= dr < r - 1 && -1 <= dc <= 1 && !(dr == 0 && dc == 0) ==> !#[trigger] way_in(
                    m,
                    sr + dr,
                    sc + dc,
                    er,
                    ec,
                ),
        decreases 3 - r,
    {
        let mut c: usize = 0;
        while c < 3
            invariant
                r < 3,
                c <= 3,
                m == map@,
                is_square(m),
                sr == start_r,
                sc == start_c,
                er == end_r,
                ec == end_c,
                1 <= sr,
                1 <= sc,
                sr + 1 < m.len(),
                sc + 1 < m.len(),
                m.len() <= usize::MAX,
                inside(m.len() as int, er, ec),
                forall|dr: int, dc: int|
                    -1 <= dr < r - 1 && -1 <= dc <= 1 && !(dr == 0 && dc == 0) ==> !#[trigger] way_in(
                        m,
                        sr + dr,
                        sc + dc,
                        er,
                        ec,
                    ),
                forall|dc: int|
                    -1 <= dc < c - 1 && !(r - 1 == 0 && dc == 0) ==> !#[trigger] way_in(
                        m,
                        sr + (r - 1),
                        sc + dc,
                        er,
                        ec,
                    ),
            decreases 3 - c,
        {
            if !(r == 1 && c == 1) {
                let nr = start_r + r - 1;
                let nc = start_c + c - 1;
                if is_passable(map[nr][nc]) && is_next_to(nr, nc, end_r, end_c) {
                    assert(way_in(m, sr + (r - 1), sc + (c - 1), er, ec));
                    return true;
                }
            }
            c += 1;
        }
        r += 1;
    }
    false
}

} // verus!
