//! Classification of elevation samples into terrain.
//!
//! An elevation is an IEEE-754 single-precision number. This crate does no
//! floating-point arithmetic, so a sample crosses into it as its bit
//! pattern, which is what `f32::to_bits` gives, and the thresholds between
//! the bands of terrain are held as bit patterns too. A pattern is a sign
//! bit above 31 bits of magnitude; among numbers, a larger magnitude is
//! farther from zero, so the order of two samples can be read off their
//! patterns with integer comparisons alone.

use vstd::prelude::*;
use crate::map::Tile;

verus! {

/// The sign bit of a sample.
pub const SIGN_BIT: u32 = 0x8000_0000;

/// The magnitude of the infinities. Every larger magnitude is a NaN.
pub const INFINITY: u32 = 0x7f80_0000;

/// Below -0.5 lies deep water.
pub const DEEP_WATER_BELOW: u32 = 0xbf00_0000;

/// Below -0.25 lies water.
pub const WATER_BELOW: u32 = 0xbe80_0000;

/// Below 0.20 lies sand.
pub const SAND_BELOW: u32 = 0x3e4c_cccd;

/// Below 0.45 lies grass.
pub const GRASS_BELOW: u32 = 0x3ee6_6666;

/// Below 0.85 lie trees.
pub const TREE_BELOW: u32 = 0x3f59_999a;

/// Below 1.5 lie mountains, and snow peaks from there on.
pub const MOUNTAIN_BELOW: u32 = 0x3fc0_0000;

/// The 31 bits of a sample under its sign bit.
pub open spec fn magnitude_bits(bits: u32) -> int {
    if bits >= SIGN_BIT {
        bits - SIGN_BIT
    } else {
        bits as int
    }
}

/// Whether the sample is not a number.
pub open spec fn is_nan(bits: u32) -> bool {
    magnitude_bits(bits) > INFINITY
}

/// Where a sample that is a number stands on the number line: samples are
/// ordered as their keys are, and both zeros have key 0.
pub open spec fn height_key(bits: u32) -> int {
    if bits >= SIGN_BIT {
        -magnitude_bits(bits)
    } else {
        magnitude_bits(bits)
    }
}

/// `a < b` between two samples: false as soon as one of them is not a
/// number.
pub open spec fn below(a: u32, b: u32) -> bool {
    !is_nan(a) && !is_nan(b) && height_key(a) < height_key(b)
}

/// The terrain of an elevation: the first band whose upper threshold lies
/// above it, and `SnowPeak` where none does.
pub open spec fn terrain_of(val: u32) -> Tile {
    if below(val, DEEP_WATER_BELOW) {
        Tile::DeepWater
    } else if below(val, WATER_BELOW) {
        Tile::Water
    } else if below(val, SAND_BELOW) {
        Tile::Sand
    } else if below(val, GRASS_BELOW) {
        Tile::Grass
    } else if below(val, TREE_BELOW) {
        Tile::Tree
    } else if below(val, MOUNTAIN_BELOW) {
        Tile::Mountain
    } else {
        Tile::SnowPeak
    }
}

/// The terrain that classification can give: the seven bands.
pub open spec fn is_band(tile: Tile) -> bool {
    tile is DeepWater || tile is Water || tile is Sand || tile is Grass || tile is Tree
        || tile is Mountain || tile is SnowPeak
}

/// The place of a band among the seven, from the lowest up.
pub open spec fn band_rank(tile: Tile) -> int {
    match tile {
        Tile::DeepWater => 0,
        Tile::Water => 1,
        Tile::Sand => 2,
        Tile::Grass => 3,
        Tile::Tree => 4,
        Tile::Mountain => 5,
        _ => 6,
    }
}

/// The key of a sample and whether it is a number at all.
fn key_of(bits: u32) -> (res: (bool, i64))
    ensures
        res.0 == !is_nan(bits),
        res.1 == height_key(bits),
{
    if bits >= SIGN_BIT {
        let magnitude = bits - SIGN_BIT;
        (magnitude <= INFINITY, -(magnitude as i64))
    } else {
        (bits <= INFINITY, bits as i64)
    }
}

/// Whether sample `a` is less than sample `b`.
pub fn is_below(a: u32, b: u32) -> (res: bool)
    ensures
        res == below(a, b),
{
    let (a_is_number, a_key) = key_of(a);
    let (b_is_number, b_key) = key_of(b);
    a_is_number && b_is_number && a_key < b_key
}

/// The terrain of the elevation `val`. Every sample has one: a sample that
/// is not a number lies below no threshold and is a `SnowPeak`.
pub fn val_to_terrain(val: u32) -> (tile: Tile)
    ensures
        tile == terrain_of(val),
        is_band(tile),
{
    if is_below(val, DEEP_WATER_BELOW) {
        return Tile::DeepWater;
    } else if is_below(val, WATER_BELOW) {
        return Tile::Water;
    } else if is_below(val, SAND_BELOW) {
        return Tile::Sand;
    } else if is_below(val, GRASS_BELOW) {
        return Tile::Grass;
    } else if is_below(val, TREE_BELOW) {
        return Tile::Tree;
    } else if is_below(val, MOUNTAIN_BELOW) {
        return Tile::Mountain;
    }
    Tile::SnowPeak
}

/// `tiles` holds, cell for cell, the terrain of the elevations in `field`.
pub open spec fn classified(field: Seq<Vec<u32>>, tiles: Seq<Vec<Tile>>) -> bool {
    &&& tiles.len() == field.len()
    &&& forall|r: int| 0 <= r < field.len() ==> (#[trigger] tiles[r])@.len() == field[r]@.len()
    &&& forall|r: int, c: int|
        0 <= r < field.len() && 0 <= c < field[r]@.len() ==> #[trigger] tiles[r]@[c]
            == terrain_of(field[r]@[c])
}

/// The terrain of one row of elevations.
fn classify_row(row: &Vec<u32>) -> (tiles: Vec<Tile>)
    ensures
        tiles@.len() == row@.len(),
        forall|c: int| 0 <= c < row@.len() ==> #[trigger] tiles@[c] == terrain_of(row@[c]),
{
    let mut tiles: Vec<Tile> = Vec::new();
    let mut c: usize = 0;
    while c < row.len()
        invariant
            c <= row@.len(),
            tiles@.len() == c,
            forall|k: int| 0 <= k < c ==> #[trigger] tiles@[k] == terrain_of(row@[k]),
        decreases row@.len() - c,
    {
        tiles.push(val_to_terrain(row[c]));
        c += 1;
    }
    tiles
}

/// Turns a field of elevations into the grid of their terrain, cell for
/// cell.
pub fn classify(field: &Vec<Vec<u32>>) -> (tiles: Vec<Vec<Tile>>)
    ensures
        classified(field@, tiles@),
{
    let mut tiles: Vec<Vec<Tile>> = Vec::new();
    let mut r: usize = 0;
    while r < field.len()
        invariant
            r <= field@.len(),
            tiles@.len() == r,
            forall|i: int| 0 <= i < r ==> (#[trigger] tiles@[i])@.len() == field@[i]@.len(),
            forall|i: int, c: int|
                0 <= i < r && 0 <= c < field@[i]@.len() ==> #[trigger] tiles@[i]@[c] == terrain_of(
                    field@[i]@[c],
                ),
        decreases field@.len() - r,
    {
        tiles.push(classify_row(&field[r]));
        r += 1;
    }
    tiles
}

/// Every elevation has exactly one terrain, and it is one of the seven
/// bands.
pub proof fn lemma_classification_is_total(val: u32)
    ensures
        is_band(terrain_of(val)),
{
}

/// A grid classified from a field has the field's shape and holds a band in
/// every cell.
pub proof fn lemma_classified_grid_holds_bands(field: Seq<Vec<u32>>, tiles: Seq<Vec<Tile>>, r: int, c: int)
    requires
        classified(field, tiles),
        0 <= r < field.len(),
        0 <= c < field[r]@.len(),
    ensures
        is_band(tiles[r]@[c]),
{
}

/// Classification never falls as the elevation rises: of two elevations that
/// are numbers, the higher one lies in the same band or in a higher one.
pub proof fn lemma_classification_is_monotone(low: u32, high: u32)
    requires
        !is_nan(low),
        !is_nan(high),
        height_key(low) <= height_key(high),
    ensures
        band_rank(terrain_of(low)) <= band_rank(terrain_of(high)),
{
}

/// The grid depends on nothing but the field: two grids classified from the
/// same field hold the same tiles, row for row.
pub proof fn lemma_same_field_same_grid(field: Seq<Vec<u32>>, one: Seq<Vec<Tile>>, other: Seq<Vec<Tile>>)
    requires
        classified(field, one),
        classified(field, other),
    ensures
        one.len() == other.len(),
        forall|r: int| 0 <= r < one.len() ==> (#[trigger] one[r])@ == other[r]@,
{
    assert forall|r: int| 0 <= r < one.len() implies (#[trigger] one[r])@ == other[r]@ by {
        assert(one[r]@.len() == field[r]@.len());
        assert(other[r]@.len() == field[r]@.len());
        assert forall|c: int| 0 <= c < one[r]@.len() implies one[r]@[c] == other[r]@[c] by {
            assert(one[r]@[c] == terrain_of(field[r]@[c]));
            assert(other[r]@[c] == terrain_of(field[r]@[c]));
        }
        assert(one[r]@ =~= other[r]@);
    }
}

} // verus!
