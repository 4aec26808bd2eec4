//! Where the player, the creatures and the items are put on the map: on a
//! cell drawn at random, if that cell will do.
//!
//! One attempt draws one cell and may fail. Whoever needs a place tries
//! again until an attempt succeeds.

use rand::Rng;
use vstd::prelude::*;
use crate::items::{Color, Item, ItemType, ItemsTable};
use crate::map::{inside, is_passable, is_square, passable, Tile};
use crate::ui::{brown, white};

verus! {

/// Calls `rand::Rng::gen_range` on the generator that `rand::thread_rng`
/// hands out. All that is claimed of the draw is its range: from `low` up
/// to, but without, `high`. The call panics where `low` is not below
/// `high`, so that is required.
#[verifier::external_body]
fn random_index(low: usize, high: usize) -> (res: usize)
    requires
        low < high,
    ensures
        low <= res < high,
{
    rand::thread_rng().gen_range(low, high)
}

/// The player may start on every tile but `Water`, `Wall`, `DeepWater`,
/// `Mountain` and `SnowPeak`.
pub open spec fn can_start_on(tile: Tile) -> bool {
    !(tile is Water || tile is Wall || tile is DeepWater || tile is Mountain || tile is SnowPeak)
}

/// What comes of drawing the cell `(row, col)` for a creature or an item:
/// the cell itself where its tile is passable, and nothing otherwise.
pub open spec fn spawn_choice(map: Seq<Vec<Tile>>, row: int, col: int) -> Option<(usize, usize)> {
    if passable(map[row]@[col]) {
        Some((row as usize, col as usize))
    } else {
        None
    }
}

/// What comes of drawing the cell `(row, col)` for the player to start on:
/// the cell itself where its tile allows that, and nothing otherwise.
pub open spec fn start_choice(map: Seq<Vec<Tile>>, row: int, col: int) -> Option<(usize, usize)> {
    if can_start_on(map[row]@[col]) {
        Some((row as usize, col as usize))
    } else {
        None
    }
}

/// Whether `(row, col)` names a cell of a square grid with `side` rows that
/// is not on its border.
pub open spec fn off_border(side: int, row: int, col: int) -> bool {
    1 <= row < side - 1 && 1 <= col < side - 1
}

/// The cell `(row, col)` as a place for a creature or an item, if its tile
/// is passable.
pub fn spawn_at(map: &Vec<Vec<Tile>>, row: usize, col: usize) -> (res: Option<(usize, usize)>)
    requires
        is_square(map@),
        inside(map@.len() as int, row as int, col as int),
    ensures
        res == spawn_choice(map@, row as int, col as int),
{
    if is_passable(map[row][col]) {
        Some((row, col))
    } else {
        None
    }
}

/// The cell `(row, col)` as a place for the player to start, if its tile
/// allows that.
pub fn start_at(map: &Vec<Vec<Tile>>, row: usize, col: usize) -> (res: Option<(usize, usize)>)
    requires
        is_square(map@),
        inside(map@.len() as int, row as int, col as int),
    ensures
        res == start_choice(map@, row as int, col as int),
{
    match map[row][col] {
        Tile::Water | Tile::Wall | Tile::DeepWater | Tile::Mountain | Tile::SnowPeak => None,
        _ => Some((row, col)),
    }
}

/// Draws a cell of the map at random and gives it back if a creature or an
/// item can be put there.
///
/// The result is what comes of drawing some cell of the map: which cell is
/// left to chance, the rest is not. So a result is always a passable cell of
/// the map, there is a result where every cell of the map is passable, and
/// there is none where no cell is.
pub fn try_spawn(map: &Vec<Vec<Tile>>) -> (res: Option<(usize, usize)>)
    requires
        is_square(map@),
        map@.len() > 0,
    ensures
        exists|row: int, col: int|
            inside(map@.len() as int, row, col) && res == #[trigger] spawn_choice(map@, row, col),
        res matches Some((row, col)) ==> inside(map@.len() as int, row as int, col as int)
            && passable(map@[row as int]@[col as int]),
        (forall|row: int, col: int|
            inside(map@.len() as int, row, col) ==> #[trigger] spawn_choice(map@, row, col)
                is Some) ==> res is Some,
        (forall|row: int, col: int|
            inside(map@.len() as int, row, col) ==> #[trigger] spawn_choice(map@, row, col)
                is None) ==> res is None,
{
    let row = random_index(0, map.len());
    let col = random_index(0, map[0].len());
    let res = spawn_at(map, row, col);
    assert(inside(map@.len() as int, row as int, col as int) && res == spawn_choice(
        map@,
        row as int,
        col as int,
    ));
    res
}

/// Draws a cell off the border of the map at random and gives it back if
/// the player can start there.
///
/// The result is what comes of drawing some cell off the border: which cell
/// is left to chance, the rest is not. So a result is always a cell off the
/// border on which the player can start, there is a result where the player
/// can start on every cell off the border, and there is none where the
/// player can start on no such cell.
pub fn try_start(map: &Vec<Vec<Tile>>) -> (res: Option<(usize, usize)>)
    requires
        is_square(map@),
        map@.len() >= 3,
    ensures
        exists|row: int, col: int|
            off_border(map@.len() as int, row, col) && res == #[trigger] start_choice(
                map@,
                row,
                col,
            ),
        res matches Some((row, col)) ==> off_border(map@.len() as int, row as int, col as int)
            && can_start_on(map@[row as int]@[col as int]),
        (forall|row: int, col: int|
            off_border(map@.len() as int, row, col) ==> #[trigger] start_choice(map@, row, col)
                is Some) ==> res is Some,
        (forall|row: int, col: int|
            off_border(map@.len() as int, row, col) ==> #[trigger] start_choice(map@, row, col)
                is None) ==> res is None,
{
    let r = random_index(1, map.len() - 1);
    let c = random_index(1, map.len() - 1);
    let res = start_at(map, r, c);
    assert(off_border(map@.len() as int, r as int, c as int) && res == start_choice(
        map@,
        r as int,
        c as int,
    ));
    res
}

/// Whether `item` is the item of that name, kind, weight, symbol and
/// colour.
pub open spec fn is_item(
    item: Item,
    name: Seq<char>,
    item_type: ItemType,
    weight: u8,
    symbol: char,
    color: Color,
) -> bool {
    item.name@ == name && item.item_type == item_type && item.weight == weight && item.symbol
        == symbol && item.color == color
}

/// Puts the three items of the trial on the map: a draught of rum on
/// `(row, col)` with a rusty cutlass on top of it, and a draught of gin on
/// the cell to the right.
pub fn add_test_item(items: &mut ItemsTable, row: usize, col: usize)
    requires
        col < usize::MAX,
    ensures
        final(items).stack_at(row as int, col as int).len() == old(items).stack_at(
            row as int,
            col as int,
        ).len() + 2,
        is_item(
            final(items).stack_at(row as int, col as int)[0],
            "rusty cutlass"@,
            ItemType::Weapon,
            3,
            '|',
            white(),
        ),
        is_item(
            final(items).stack_at(row as int, col as int)[1],
            "draught of rum"@,
            ItemType::Drink,
            1,
            '!',
            brown(),
        ),
        final(items).stack_at(row as int, col as int).skip(2) == old(items).stack_at(
            row as int,
            col as int,
        ),
        final(items).stack_at(row as int, col + 1).len() == old(items).stack_at(
            row as int,
            col + 1,
        ).len() + 1,
        is_item(
            final(items).stack_at(row as int, col + 1)[0],
            "draught of gin"@,
            ItemType::Weapon,
            3,
            '!',
            white(),
        ),
        final(items).stack_at(row as int, col + 1).skip(1) == old(items).stack_at(
            row as int,
            col + 1,
        ),
        forall|r: int, c: int|
            !(r == row && (c == col || c == col + 1)) ==> #[trigger] final(items).stack_at(r, c)
                == old(items).stack_at(r, c),
{
    let i = Item::new("draught of rum", ItemType::Drink, 1, '!', brown());
    items.add(row, col, i);

    let i = Item::new("rusty cutlass", ItemType::Weapon, 3, '|', white());
    items.add(row, col, i);

    let i = Item::new("draught of gin", ItemType::Weapon, 3, '!', white());
    items.add(row, col + 1, i);
    assert(items.stack_at(row as int, col as int).skip(2) =~= old(items).stack_at(
        row as int,
        col as int,
    ));
    assert(items.stack_at(row as int, col + 1).skip(1) =~= old(items).stack_at(
        row as int,
        col + 1,
    ));
}

} // verus!
