use terrain_fov::map::Tile;
use terrain_fov::terrain::{
    classify, is_below, val_to_terrain, DEEP_WATER_BELOW, GRASS_BELOW, INFINITY, MOUNTAIN_BELOW,
    SAND_BELOW, SIGN_BIT, TREE_BELOW, WATER_BELOW,
};

/// The bands as the thresholds on floating-point numbers give them.
fn band(val: f32) -> Tile {
    if val < -0.5 {
        Tile::DeepWater
    } else if val < -0.25 {
        Tile::Water
    } else if val < 0.20 {
        Tile::Sand
    } else if val < 0.45 {
        Tile::Grass
    } else if val < 0.85 {
        Tile::Tree
    } else if val < 1.5 {
        Tile::Mountain
    } else {
        Tile::SnowPeak
    }
}

fn rank(tile: Tile) -> u32 {
    match tile {
        Tile::DeepWater => 0,
        Tile::Water => 1,
        Tile::Sand => 2,
        Tile::Grass => 3,
        Tile::Tree => 4,
        Tile::Mountain => 5,
        Tile::SnowPeak => 6,
        other => panic!("{:?} is no band", other),
    }
}

#[test]
fn thresholds_are_the_patterns_of_the_decimal_values() {
    assert_eq!(DEEP_WATER_BELOW, (-0.5f32).to_bits());
    assert_eq!(WATER_BELOW, (-0.25f32).to_bits());
    assert_eq!(SAND_BELOW, 0.20f32.to_bits());
    assert_eq!(GRASS_BELOW, 0.45f32.to_bits());
    assert_eq!(TREE_BELOW, 0.85f32.to_bits());
    assert_eq!(MOUNTAIN_BELOW, 1.5f32.to_bits());
    assert_eq!(INFINITY, f32::INFINITY.to_bits());
    assert_eq!(SIGN_BIT, (-0.0f32).to_bits());
}

#[test]
fn each_band_is_given_for_an_elevation_inside_it() {
    assert_eq!(val_to_terrain((-0.75f32).to_bits()), Tile::DeepWater);
    assert_eq!(val_to_terrain((-0.3f32).to_bits()), Tile::Water);
    assert_eq!(val_to_terrain(0.0f32.to_bits()), Tile::Sand);
    assert_eq!(val_to_terrain(0.3f32.to_bits()), Tile::Grass);
    assert_eq!(val_to_terrain(0.6f32.to_bits()), Tile::Tree);
    assert_eq!(val_to_terrain(1.0f32.to_bits()), Tile::Mountain);
    assert_eq!(val_to_terrain(2.0f32.to_bits()), Tile::SnowPeak);
}

#[test]
fn a_threshold_belongs_to_the_band_above_it() {
    assert_eq!(val_to_terrain((-0.5f32).to_bits()), Tile::Water);
    assert_eq!(val_to_terrain((-0.25f32).to_bits()), Tile::Sand);
    assert_eq!(val_to_terrain(0.20f32.to_bits()), Tile::Grass);
    assert_eq!(val_to_terrain(0.45f32.to_bits()), Tile::Tree);
    assert_eq!(val_to_terrain(0.85f32.to_bits()), Tile::Mountain);
    assert_eq!(val_to_terrain(1.5f32.to_bits()), Tile::SnowPeak);
}

#[test]
fn the_number_just_under_a_threshold_belongs_to_the_band_below_it() {
    // For a negative number the next pattern up is the next number down.
    assert_eq!(val_to_terrain((-0.5f32).to_bits() + 1), Tile::DeepWater);
    assert_eq!(val_to_terrain((-0.25f32).to_bits() + 1), Tile::Water);
    assert_eq!(val_to_terrain(0.20f32.to_bits() - 1), Tile::Sand);
    assert_eq!(val_to_terrain(0.45f32.to_bits() - 1), Tile::Grass);
    assert_eq!(val_to_terrain(0.85f32.to_bits() - 1), Tile::Tree);
    assert_eq!(val_to_terrain(1.5f32.to_bits() - 1), Tile::Mountain);
}

#[test]
fn zeros_infinities_and_nan_have_a_band() {
    assert_eq!(val_to_terrain(0.0f32.to_bits()), Tile::Sand);
    assert_eq!(val_to_terrain((-0.0f32).to_bits()), Tile::Sand);
    assert_eq!(val_to_terrain(f32::INFINITY.to_bits()), Tile::SnowPeak);
    assert_eq!(val_to_terrain(f32::NEG_INFINITY.to_bits()), Tile::DeepWater);
    assert_eq!(val_to_terrain(f32::NAN.to_bits()), Tile::SnowPeak);
    assert_eq!(val_to_terrain(f32::NAN.to_bits() | 0x8000_0000), Tile::SnowPeak);
    assert_eq!(val_to_terrain(f32::MAX.to_bits()), Tile::SnowPeak);
    assert_eq!(val_to_terrain(f32::MIN.to_bits()), Tile::DeepWater);
    assert_eq!(val_to_terrain(f32::MIN_POSITIVE.to_bits()), Tile::Sand);
}

#[test]
fn classification_agrees_with_the_comparisons_on_numbers() {
    // A walk over all patterns in large strides, and a fine one near zero.
    let mut bits: u32 = 0;
    loop {
        let val = f32::from_bits(bits);
        assert_eq!(val_to_terrain(bits), band(val), "pattern {:#x}", bits);
        match bits.checked_add(65_521) {
            Some(next) => bits = next,
            None => break,
        }
    }
    let mut val = -3.0f32;
    while val < 3.0 {
        assert_eq!(val_to_terrain(val.to_bits()), band(val), "elevation {}", val);
        val += 0.001;
    }
}

#[test]
fn is_below_is_less_than_on_numbers() {
    let samples = [
        f32::NEG_INFINITY,
        -2.5,
        -0.5,
        -0.0,
        0.0,
        f32::MIN_POSITIVE,
        0.2,
        1.5,
        f32::INFINITY,
        f32::NAN,
    ];
    for a in samples {
        for b in samples {
            assert_eq!(is_below(a.to_bits(), b.to_bits()), a < b, "{} < {}", a, b);
        }
    }
}

#[test]
fn classification_never_falls_as_elevation_rises() {
    let mut last = 0;
    let mut val = -2.0f32;
    while val < 2.5 {
        let now = rank(val_to_terrain(val.to_bits()));
        assert!(last <= now, "band falls at {}", val);
        last = now;
        val += 0.0005;
    }
    assert_eq!(last, 6);
}

#[test]
fn classify_maps_a_field_cell_for_cell() {
    let field = vec![
        vec![(-1.0f32).to_bits(), (-0.4f32).to_bits(), 0.1f32.to_bits()],
        vec![0.4f32.to_bits(), 0.5f32.to_bits(), 0.9f32.to_bits()],
        vec![1.7f32.to_bits(), (-0.5f32).to_bits(), 0.85f32.to_bits()],
    ];
    let tiles = classify(&field);
    assert_eq!(
        tiles,
        vec![
            vec![Tile::DeepWater, Tile::Water, Tile::Sand],
            vec![Tile::Grass, Tile::Tree, Tile::Mountain],
            vec![Tile::SnowPeak, Tile::Water, Tile::Mountain],
        ]
    );
}

#[test]
fn classify_keeps_the_shape_of_the_field() {
    let field: Vec<Vec<u32>> = vec![vec![], vec![0], vec![0, 0, 0]];
    let tiles = classify(&field);
    assert_eq!(tiles.len(), 3);
    assert_eq!(tiles[0].len(), 0);
    assert_eq!(tiles[1], vec![Tile::Sand]);
    assert_eq!(tiles[2], vec![Tile::Sand, Tile::Sand, Tile::Sand]);
    assert!(classify(&Vec::new()).is_empty());
}
