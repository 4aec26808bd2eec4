use terrain_fov::map::{generate_test_map, in_bounds, is_clear, is_passable, Tile};

const ALL: [Tile; 13] = [
    Tile::Blank,
    Tile::Wall,
    Tile::Tree,
    Tile::Dirt,
    Tile::Grass,
    Tile::Player,
    Tile::Water,
    Tile::DeepWater,
    Tile::Sand,
    Tile::Mountain,
    Tile::SnowPeak,
    Tile::Gate,
    Tile::StoneFloor,
];

#[test]
fn in_bounds_takes_the_number_of_rows_for_both_axes() {
    let map = vec![vec![Tile::Dirt; 4]; 4];
    assert!(in_bounds(&map, 0, 0));
    assert!(in_bounds(&map, 3, 3));
    assert!(in_bounds(&map, 0, 3));
    assert!(!in_bounds(&map, 4, 0));
    assert!(!in_bounds(&map, 0, 4));
    assert!(!in_bounds(&map, -1, 0));
    assert!(!in_bounds(&map, 0, -1));
    assert!(!in_bounds(&map, i32::MAX, 0));
    assert!(!in_bounds(&map, i32::MIN, i32::MIN));
    assert!(!in_bounds(&Vec::new(), 0, 0));
}

#[test]
fn four_tiles_block_sight() {
    for tile in ALL {
        let opaque = matches!(tile, Tile::Wall | Tile::Blank | Tile::Mountain | Tile::SnowPeak);
        assert_eq!(is_clear(tile), !opaque, "{:?}", tile);
    }
}

#[test]
fn six_tiles_block_the_way() {
    for tile in ALL {
        let blocked = matches!(
            tile,
            Tile::DeepWater | Tile::Wall | Tile::Blank | Tile::Mountain | Tile::SnowPeak | Tile::Gate
        );
        assert_eq!(is_passable(tile), !blocked, "{:?}", tile);
    }
}

#[test]
fn test_map_is_the_walled_room() {
    let w = Tile::Wall;
    let d = Tile::Dirt;
    let g = Tile::Gate;
    let expect = vec![
        vec![w, w, w, w, w, w, w, w, w, w, w],
        vec![w, d, d, d, d, d, d, d, d, d, w],
        vec![w, d, d, d, d, d, d, w, d, d, w],
        vec![w, d, d, w, w, w, d, d, d, d, w],
        vec![w, d, d, w, d, w, d, d, d, d, w],
        vec![w, d, d, w, d, w, d, d, d, d, w],
        vec![w, d, d, w, d, w, d, d, d, d, w],
        vec![w, d, d, d, d, d, d, d, d, d, w],
        vec![w, d, d, d, d, d, d, w, w, w, w],
        vec![w, d, d, d, d, d, d, g, d, d, w],
        vec![w, w, w, w, w, w, w, w, w, w, w],
    ];
    assert_eq!(generate_test_map(), expect);
}
