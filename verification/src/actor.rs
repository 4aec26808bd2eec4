//! The creatures that stand on the map.

use vstd::prelude::*;
use crate::items::{Color, TileInfo};

verus! {

/// A creature: its armour class and hit points, how it is drawn, and where
/// it stands.
#[derive(Debug)]
pub struct Monster {
    pub ac: u8,
    pub hp: u8,
    pub symbol: char,
    pub row: usize,
    pub col: usize,
    pub color: Color,
}

impl Monster {
    pub fn new(ac: u8, hp: u8, symbol: char, row: usize, col: usize, color: Color) -> (m: Monster)
        ensures
            m == (Monster { ac, hp, symbol, row, col, color }),
    {
        Monster { ac, hp, symbol, row, col, color }
    }
}

impl TileInfo for Monster {
    fn get_tile_info(&self) -> (info: (Color, char))
        ensures
            info == (self.color, self.symbol),
    {
        (self.color, self.symbol)
    }
}

/// Whether one of `npcs` stands on `(r, c)`.
pub open spec fn occupied(npcs: Seq<Monster>, r: int, c: int) -> bool {
    exists|i: int| 0 <= i < npcs.len() && (#[trigger] npcs[i]).row == r && npcs[i].col == c
}

/// Whether one of `npcs` stands on `(r, c)`.
pub fn is_occupied(npcs: &Vec<Monster>, r: usize, c: usize) -> (res: bool)
    ensures
        res == occupied(npcs@, r as int, c as int),
{
    let mut i: usize = 0;
    while i < npcs.len()
        invariant
            i <= npcs@.len(),
            forall|k: int| 0 <= k < i ==> !((#[trigger] npcs@[k]).row == r && npcs@[k].col == c),
        decreases npcs@.len() - i,
    {
        if npcs[i].row == r && npcs[i].col == c {
            return true;
        }
        i += 1;
    }
    false
}

} // verus!
