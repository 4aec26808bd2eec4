use terrain_fov::cave::{
    cave_qa, count_neighbouring_walls, dump_cave, next_generation, set_border,
};
use terrain_fov::disjoint_set::{ds_find, ds_union, DisjointSet};
use terrain_fov::pathfinding::{find_path, manhattan_d};
use terrain_fov::map::Tile;

fn grid(rows: &[&str]) -> Vec<Vec<bool>> {
    rows.iter().map(|row| row.chars().map(|ch| ch == '#').collect()).collect()
}

#[test]
fn walls_are_counted_in_the_block_around_a_cell() {
    let g = grid(&["....", ".#..", "..#.", "...."]);
    // The cell itself counts where it is a wall.
    assert_eq!(count_neighbouring_walls(&g, 1, 1, 4, 4), 2);
    assert_eq!(count_neighbouring_walls(&g, 2, 2, 4, 4), 2);
    assert_eq!(count_neighbouring_walls(&g, 1, 2, 4, 4), 2);
    assert_eq!(count_neighbouring_walls(&g, 2, 1, 4, 4), 2);
}

#[test]
fn cells_beyond_the_grid_count_as_walls() {
    let g = grid(&["....", "....", "....", "...."]);
    assert_eq!(count_neighbouring_walls(&g, 0, 0, 4, 4), 5);
    assert_eq!(count_neighbouring_walls(&g, 3, 3, 4, 4), 5);
    assert_eq!(count_neighbouring_walls(&g, 0, 2, 4, 4), 3);
    assert_eq!(count_neighbouring_walls(&g, 2, 3, 4, 4), 3);
    assert_eq!(count_neighbouring_walls(&g, 2, 2, 4, 4), 0);
}

#[test]
fn top_left_corner_of_the_grid_never_counts() {
    let g = grid(&["##.", "##.", "..."]);
    assert_eq!(count_neighbouring_walls(&g, 1, 1, 3, 3), 3);
    let all = grid(&["###", "###", "###"]);
    assert_eq!(count_neighbouring_walls(&all, 1, 1, 3, 3), 8);
    assert_eq!(count_neighbouring_walls(&all, 0, 0, 3, 3), 8);
    assert_eq!(count_neighbouring_walls(&all, 2, 2, 3, 3), 9);
}

#[test]
fn cell_with_few_walls_around_it_becomes_floor() {
    let g = grid(&[".....", "..#..", ".....", ".....", "....."]);
    let next = next_generation(&g, 5, 5);
    assert_eq!(next, grid(&[".....", ".....", ".....", ".....", "....."]));
}

#[test]
fn cell_with_many_walls_around_it_becomes_wall() {
    let g = grid(&["#####", "##.##", "#####", "#...#", "#####"]);
    let next = next_generation(&g, 5, 5);
    // Off the border every cell has six or more walls around it, the floors too.
    assert_eq!(next, grid(&[".....", ".###.", ".###.", ".###.", "....."]));
}

#[test]
fn cell_with_four_or_five_walls_around_it_stays() {
    let g = grid(&[".....", ".##..", ".##..", ".....", "....."]);
    let next = next_generation(&g, 5, 5);
    assert_eq!(next, grid(&[".....", ".##..", ".##..", ".....", "....."]));
}

#[test]
fn border_becomes_wall_and_the_inside_stays() {
    let mut g = grid(&["....", ".#..", "....", "...."]);
    set_border(&mut g, 4, 4);
    assert_eq!(g, grid(&["####", "##.#", "#..#", "####"]));
    let mut row = grid(&["..."]);
    set_border(&mut row, 3, 1);
    assert_eq!(row, grid(&["###"]));
    let mut one = grid(&["."]);
    set_border(&mut one, 1, 1);
    assert_eq!(one, grid(&["#"]));
    let mut tall = grid(&[".", ".", "."]);
    set_border(&mut tall, 1, 3);
    assert_eq!(tall, grid(&["#", "#", "#"]));
}

#[test]
fn cave_is_drawn_with_hashes_and_dots() {
    let g = grid(&["###", "#.#", "###"]);
    assert_eq!(dump_cave(&g), vec!["###", "#.#", "###"]);
    assert!(dump_cave(&Vec::new()).is_empty());
    assert_eq!(dump_cave(&vec![vec![], vec![false]]), vec!["", "."]);
}

#[test]
fn every_floor_off_the_border_is_a_set_of_its_own() {
    let g = grid(&["......", ".#..#.", "..##..", "......"]);
    assert_eq!(
        cave_qa(&g, 6, 4),
        vec![((1, 2), 1), ((1, 3), 1), ((2, 1), 1), ((2, 4), 1)]
    );
    assert!(cave_qa(&grid(&["..", ".."]), 2, 2).is_empty());
    assert!(cave_qa(&grid(&["."]), 1, 1).is_empty());
}

#[test]
fn unknown_cell_is_found_as_a_set_of_one() {
    let mut ds = DisjointSet::new();
    assert_eq!(ds_find(&mut ds, (2, 3)), ((2, 3), 1));
    assert_eq!(ds_find(&mut ds, (2, 3)), ((2, 3), 1));
    assert_eq!(ds_find(&mut ds, (3, 2)), ((3, 2), 1));
}

#[test]
fn union_of_equal_sets_hangs_the_first_under_the_second() {
    let mut ds = DisjointSet::new();
    ds_union(&mut ds, (1, 1), (1, 2));
    assert_eq!(ds_find(&mut ds, (1, 1)), ((1, 2), 2));
    assert_eq!(ds_find(&mut ds, (1, 2)), ((1, 2), 2));
}

#[test]
fn union_hangs_the_smaller_set_under_the_larger() {
    let mut ds = DisjointSet::new();
    ds_union(&mut ds, (1, 1), (1, 2));
    // (1, 2) now stands for two cells, (5, 5) for itself.
    ds_union(&mut ds, (1, 2), (5, 5));
    assert_eq!(ds_find(&mut ds, (1, 2)), ((1, 2), 3));
    assert_eq!(ds_find(&mut ds, (5, 5)), ((1, 2), 3));
    assert_eq!(ds_find(&mut ds, (1, 1)), ((1, 2), 2));
    ds_union(&mut ds, (7, 7), (5, 5));
    assert_eq!(ds_find(&mut ds, (7, 7)), ((5, 5), 4));
    assert_eq!(ds_find(&mut ds, (1, 2)), ((1, 2), 4));
}

#[test]
fn manhattan_distance_adds_the_gaps() {
    assert_eq!(manhattan_d(0, 0, 0, 0), 0);
    assert_eq!(manhattan_d(1, 2, 4, 6), 7);
    assert_eq!(manhattan_d(4, 6, 1, 2), 7);
    assert_eq!(manhattan_d(4, 2, 1, 6), 7);
    assert_eq!(manhattan_d(0, usize::MAX, 0, 0), usize::MAX);
}

#[test]
fn goal_next_to_a_free_neighbour_is_found() {
    let map = vec![vec![Tile::Dirt; 7]; 7];
    assert!(find_path(&map, 3, 3, 3, 5));
    assert!(find_path(&map, 3, 3, 5, 3));
    assert!(find_path(&map, 3, 3, 4, 5));
    assert!(find_path(&map, 3, 3, 3, 3));
    assert!(find_path(&map, 3, 3, 2, 2));
    assert!(!find_path(&map, 3, 3, 3, 6));
    assert!(!find_path(&map, 3, 3, 5, 5));
    assert!(!find_path(&map, 3, 3, 0, 0));
}

#[test]
fn goal_behind_blocked_neighbours_is_not_found() {
    let mut map = vec![vec![Tile::Dirt; 7]; 7];
    map[2][4] = Tile::Wall;
    map[3][4] = Tile::Wall;
    map[4][4] = Tile::DeepWater;
    assert!(!find_path(&map, 3, 3, 3, 5));
    // The goal itself may be a neighbour, if it can be stepped on.
    assert!(!find_path(&map, 3, 3, 3, 4));
    map[3][4] = Tile::Grass;
    assert!(find_path(&map, 3, 3, 3, 5));
    assert!(find_path(&map, 3, 3, 3, 4));
}
