//! Terrain categories, the square tile grid, and the predicates that movement
//! and sight rest on.

use vstd::prelude::*;

verus! {

/// The closed set of terrain categories.
///
/// `Player` marks the observer inside a visibility window and never occurs in
/// a world grid; `StoneFloor` is kept for hand-built maps.
#[derive(Debug, Clone, Copy, PartialEq, Eq, Structural)]
pub enum Tile {
    Blank,
    Wall,
    Tree,
    Dirt,
    Grass,
    Player,
    Water,
    DeepWater,
    Sand,
    Mountain,
    SnowPeak,
    Gate,
    StoneFloor,
}

/// A grid is square when every row is as long as the grid has rows.
pub open spec fn is_square(map: Seq<Vec<Tile>>) -> bool {
    forall|r: int| 0 <= r < map.len() ==> (#[trigger] map[r]).len() == map.len()
}

/// A grid is `height` rows of `width` cells each.
pub open spec fn has_shape(map: Seq<Vec<Tile>>, height: int, width: int) -> bool {
    &&& map.len() == height
    &&& forall|r: int| 0 <= r < map.len() ==> (#[trigger] map[r]).len() == width
}

/// Whether `(r, c)` names a cell of a square grid with `side` rows.
pub open spec fn inside(side: int, r: int, c: int) -> bool {
    0 <= r < side && 0 <= c < side
}

/// Sight passes through every category but `Wall`, `Blank`, `Mountain` and
/// `SnowPeak`.
pub open spec fn clear(tile: Tile) -> bool {
    !(tile is Wall || tile is Blank || tile is Mountain || tile is SnowPeak)
}

/// An actor may stand on every category but `DeepWater`, `Wall`, `Blank`,
/// `Mountain`, `SnowPeak` and `Gate`.
pub open spec fn passable(tile: Tile) -> bool {
    !(tile is DeepWater || tile is Wall || tile is Blank || tile is Mountain || tile is SnowPeak
        || tile is Gate)
}

/// Whether row `r`, column `c` lies on the grid. The grid is taken to be
/// square: its number of rows bounds both coordinates.
pub fn in_bounds(map: &Vec<Vec<Tile>>, r: i32, c: i32) -> (res: bool)
    ensures
        res == inside(map@.len() as int, r as int, c as int),
{
    r >= 0 && c >= 0 && (r as usize) < map.len() && (c as usize) < map.len()
}

/// Whether sight passes through `tile`.
pub fn is_clear(tile: Tile) -> (res: bool)
    ensures
        res == clear(tile),
{
    match tile {
        Tile::Wall | Tile::Blank | Tile::Mountain | Tile::SnowPeak => false,
        _ => true,
    }
}

/// Whether an actor may stand on `tile`.
pub fn is_passable(tile: Tile) -> (res: bool)
    ensures
        res == passable(tile),
{
    match tile {
        Tile::DeepWater | Tile::Wall | Tile::Blank | Tile::Mountain | Tile::SnowPeak
        | Tile::Gate => false,
        _ => true,
    }
}

/// The tile that the hand-built test map holds at `(r, c)`: a walled room of
/// dirt, eleven cells a side, with a walled enclosure inside it, a short wall
/// and a gate by the lower right corner, and one lone wall near the top.
pub open spec fn test_map_tile(r: int, c: int) -> Tile {
    if r == 0 || r == 10 || c == 0 || c == 10 {
        Tile::Wall
    } else if r == 9 && c == 7 {
        Tile::Gate
    } else if r == 8 && 7 <= c <= 9 {
        Tile::Wall
    } else if r == 2 && c == 7 {
        Tile::Wall
    } else if 4 <= r <= 6 && (c == 3 || c == 5) {
        Tile::Wall
    } else if r == 3 && 3 <= c <= 5 {
        Tile::Wall
    } else {
        Tile::Dirt
    }
}

/// A row of `len` cells: `edge` at both ends, `fill` between them.
fn framed_row(len: usize, edge: Tile, fill: Tile) -> (row: Vec<Tile>)
    ensures
        row@.len() == len,
        forall|c: int|
            0 <= c < len ==> #[trigger] row@[c] == (if c == 0 || c == len - 1 {
                edge
            } else {
                fill
            }),
{
    let mut row: Vec<Tile> = Vec::new();
    let mut c: usize = 0;
    while c < len
        invariant
            c <= len,
            row@.len() == c,
            forall|k: int|
                0 <= k < c ==> #[trigger] row@[k] == (if k == 0 || k == len - 1 {
                    edge
                } else {
                    fill
                }),
        decreases len - c,
    {
        if c == 0 || c == len - 1 {
            row.push(edge);
        } else {
            row.push(fill);
        }
        c += 1;
    }
    row
}

/// Builds the hand-built test map.
pub fn generate_test_map() -> (map: Vec<Vec<Tile>>)
    ensures
        has_shape(map@, 11, 11),
        is_square(map@),
        forall|r: int, c: int| 0 <= r < 11 && 0 <= c < 11 ==> #[trigger] map@[r]@[c] == test_map_tile(r, c),
{
    let mut map: Vec<Vec<Tile>> = Vec::new();
    map.push(framed_row(11, Tile::Wall, Tile::Wall));
    let mut r: usize = 0;
    while r < 9
        invariant
            r <= 9,
            map@.len() == r + 1,
            forall|i: int| 0 <= i < map@.len() ==> (#[trigger] map@[i])@.len() == 11,
            forall|i: int, c: int|
                0 <= i < map@.len() && 0 <= c < 11 ==> #[trigger] map@[i]@[c] == (if i == 0 || c == 0
                    || c == 10 {
                    Tile::Wall
                } else {
                    Tile::Dirt
                }),
        decreases 9 - r,
    {
        map.push(framed_row(11, Tile::Wall, Tile::Dirt));
        r += 1;
    }
    map.push(framed_row(11, Tile::Wall, Tile::Wall));

    map[8][9] = Tile::Wall;
    map[8][8] = Tile::Wall;
    map[8][7] = Tile::Wall;

    map[9][7] = Tile::Gate;

    map[2][7] = Tile::Wall;

    map[6][3] = Tile::Wall;
    map[6][5] = Tile::Wall;

    map[5][3] = Tile::Wall;
    map[5][5] = Tile::Wall;

    map[4][3] = Tile::Wall;
    map[4][5] = Tile::Wall;

    map[3][3] = Tile::Wall;
    map[3][4] = Tile::Wall;
    map[3][5] = Tile::Wall;

    map
}

} // verus!
