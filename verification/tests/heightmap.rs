use rand::rngs::StdRng;
use rand::{Rng, SeedableRng};
use terrain_fov::heightmap::{
    calc_diamond_avg, corners, diamond_sq, diamond_square, diamond_step, is_valid_size,
    smooth_map, smooth_step, square_step, Update,
};
use terrain_fov::map::Tile;
use terrain_fov::terrain::classify;

fn update(row: usize, col: usize, sources: &[(usize, usize)], span: usize, depth: usize) -> Update {
    Update { row, col, sources: sources.to_vec(), span, depth }
}

/// Fills a field by carrying out the library's steps in floating-point
/// arithmetic, and warps it into an island.
fn island_field(size: usize, rng: &mut StdRng) -> Vec<Vec<f32>> {
    let mut grid = vec![vec![0.0f32; size]; size];
    for (r, c) in corners(size) {
        grid[r][c] = rng.gen_range(0.0, 1.0);
    }
    let mut scales = vec![1.0 / size as f32];
    for step in diamond_square(size) {
        while scales.len() <= step.depth {
            let finer = scales[scales.len() - 1] * 1.95;
            scales.push(finer);
        }
        let mut avg = 0.0f32;
        for (r, c) in &step.sources {
            avg += grid[*r][*c];
        }
        avg /= step.sources.len() as f32;
        let fuzz = (rng.gen_range(0.0, 1.0) * 2f32 - 1f32) * step.span as f32 * scales[step.depth];
        grid[step.row][step.col] = avg + fuzz;
    }
    for row in smooth_map(size) {
        for step in row {
            let mut avg = 0.0f32;
            for (r, c) in &step.sources {
                avg += grid[*r][*c];
            }
            grid[step.row][step.col] = avg / step.sources.len() as f32;
        }
    }
    for r in 0..size {
        for c in 0..size {
            let xd = c as f32 / (size as f32 - 1.0) * 2f32 - 1.0;
            let yd = r as f32 / size as f32 * 2f32 - 1.0;
            grid[r][c] += 0.96 - f32::sqrt(xd * xd + yd * yd) * 3.0;
        }
    }
    grid
}

fn island(size: usize, seed: u64) -> Vec<Vec<Tile>> {
    let mut rng = StdRng::seed_from_u64(seed);
    let field = island_field(size, &mut rng);
    let bits: Vec<Vec<u32>> =
        field.iter().map(|row| row.iter().map(|v| v.to_bits()).collect()).collect();
    classify(&bits)
}

fn is_water(tile: Tile) -> bool {
    tile == Tile::DeepWater || tile == Tile::Water
}

#[test]
fn valid_sizes_are_one_more_than_a_power_of_two() {
    for size in [3usize, 5, 9, 17, 33, 65, 129, 257, 1025] {
        assert!(is_valid_size(size), "{}", size);
    }
    for size in [0usize, 1, 2, 4, 6, 7, 8, 10, 16, 18, 64, 66, 100, 127, 128] {
        assert!(!is_valid_size(size), "{}", size);
    }
    assert!(!is_valid_size(usize::MAX));
}

#[test]
fn corners_are_seeded_in_reading_order() {
    assert_eq!(corners(5), [(0, 0), (0, 4), (4, 0), (4, 4)]);
    assert_eq!(corners(1), [(0, 0), (0, 0), (0, 0), (0, 0)]);
}

#[test]
fn diamond_step_averages_the_four_corners_into_the_centre() {
    assert_eq!(diamond_step(0, 0, 5, 0), update(2, 2, &[(0, 0), (0, 4), (4, 0), (4, 4)], 5, 0));
    assert_eq!(diamond_step(2, 4, 3, 1), update(3, 5, &[(2, 4), (2, 6), (4, 4), (4, 6)], 3, 1));
}

#[test]
fn edge_midpoints_leave_out_neighbours_beyond_the_field() {
    // Top edge: nothing above.
    assert_eq!(calc_diamond_avg(5, 0, 2, 2, 0), update(0, 2, &[(0, 0), (0, 4), (2, 2)], 2, 0));
    // Bottom edge: nothing below.
    assert_eq!(calc_diamond_avg(5, 4, 2, 2, 0), update(4, 2, &[(4, 0), (4, 4), (2, 2)], 2, 0));
    // Left edge: nothing to the left.
    assert_eq!(calc_diamond_avg(5, 2, 0, 2, 0), update(2, 0, &[(2, 2), (0, 0), (4, 0)], 2, 0));
    // Right edge: nothing to the right.
    assert_eq!(calc_diamond_avg(5, 2, 4, 2, 0), update(2, 4, &[(2, 2), (0, 4), (4, 4)], 2, 0));
    // Inside the field: left, right, up, down.
    assert_eq!(
        calc_diamond_avg(5, 2, 2, 1, 3),
        update(2, 2, &[(2, 1), (2, 3), (1, 2), (3, 2)], 1, 3)
    );
    // A lone cell has no neighbours.
    assert_eq!(calc_diamond_avg(1, 0, 0, 1, 0), update(0, 0, &[], 1, 0));
}

#[test]
fn square_step_sets_top_bottom_left_and_right_midpoint() {
    let mut out = vec![diamond_step(0, 0, 3, 0)];
    square_step(3, 1, 1, 3, 0, &mut out);
    assert_eq!(
        out,
        vec![
            update(1, 1, &[(0, 0), (0, 2), (2, 0), (2, 2)], 3, 0),
            update(0, 1, &[(0, 0), (0, 2), (1, 1)], 1, 0),
            update(2, 1, &[(2, 0), (2, 2), (1, 1)], 1, 0),
            update(1, 0, &[(1, 1), (0, 0), (2, 0)], 1, 0),
            update(1, 2, &[(1, 1), (0, 2), (2, 2)], 1, 0),
        ]
    );
}

#[test]
fn smallest_field_takes_one_diamond_and_one_square_step() {
    let plan = diamond_square(3);
    let mut out = Vec::new();
    diamond_sq(3, 0, 0, 3, 0, &mut out);
    assert_eq!(plan, out);
    assert_eq!(plan.len(), 5);
    assert_eq!(plan[0], update(1, 1, &[(0, 0), (0, 2), (2, 0), (2, 2)], 3, 0));
    assert_eq!(plan[4], update(1, 2, &[(1, 1), (0, 2), (2, 2)], 1, 0));
}

#[test]
fn quarters_follow_their_square_one_level_deeper() {
    let plan = diamond_square(5);
    assert_eq!(plan.len(), 25);
    let targets: Vec<(usize, usize, usize)> =
        plan.iter().map(|u| (u.row, u.col, u.depth)).collect();
    assert_eq!(
        targets,
        vec![
            (2, 2, 0), (0, 2, 0), (4, 2, 0), (2, 0, 0), (2, 4, 0),
            (1, 1, 1), (0, 1, 1), (2, 1, 1), (1, 0, 1), (1, 2, 1),
            (1, 3, 1), (0, 3, 1), (2, 3, 1), (1, 2, 1), (1, 4, 1),
            (3, 1, 1), (2, 1, 1), (4, 1, 1), (3, 0, 1), (3, 2, 1),
            (3, 3, 1), (2, 3, 1), (4, 3, 1), (3, 2, 1), (3, 4, 1),
        ]
    );
    // The midpoint between two quarters is averaged over all four sides.
    assert_eq!(plan[7], update(2, 1, &[(2, 0), (2, 2), (1, 1), (3, 1)], 1, 1));
    assert_eq!(plan[5].span, 3);
}

#[test]
fn plan_grows_fourfold_with_every_halving() {
    assert_eq!(diamond_square(9).len(), 5 * (1 + 4 + 16));
    assert_eq!(diamond_square(65).len(), 5 * (1 + 4 + 16 + 64 + 256 + 1024));
}

#[test]
fn every_step_lies_in_the_field_and_averages_three_or_four_cells() {
    for size in [3usize, 5, 9, 17, 33, 65] {
        for step in diamond_square(size) {
            assert!(step.row < size && step.col < size);
            assert!(step.sources.len() == 3 || step.sources.len() == 4);
            assert!(step.span >= 1);
            for (r, c) in step.sources {
                assert!(r < size && c < size);
            }
        }
    }
}

#[test]
fn displacement_leaves_no_hole() {
    for size in [3usize, 5, 9, 17, 33, 65] {
        let mut set = vec![vec![false; size]; size];
        for (r, c) in corners(size) {
            set[r][c] = true;
        }
        for step in diamond_square(size) {
            assert!(!corners(size).contains(&(step.row, step.col)));
            set[step.row][step.col] = true;
        }
        for row in set {
            assert!(row.into_iter().all(|done| done));
        }
    }
}

#[test]
fn smoothing_takes_the_cell_first_and_then_its_block_row_by_row() {
    assert_eq!(
        smooth_step(5, 2, 2),
        update(
            2,
            2,
            &[(2, 2), (1, 1), (1, 2), (1, 3), (2, 1), (2, 3), (3, 1), (3, 2), (3, 3)],
            0,
            0
        )
    );
    assert_eq!(smooth_step(5, 0, 0), update(0, 0, &[(0, 0), (0, 1), (1, 0), (1, 1)], 0, 0));
    assert_eq!(smooth_step(5, 4, 4), update(4, 4, &[(4, 4), (3, 3), (3, 4), (4, 3)], 0, 0));
    assert_eq!(
        smooth_step(5, 0, 3),
        update(0, 3, &[(0, 3), (0, 2), (0, 4), (1, 2), (1, 3), (1, 4)], 0, 0)
    );
    assert_eq!(smooth_step(1, 0, 0), update(0, 0, &[(0, 0)], 0, 0));
}

#[test]
fn smoothing_pass_visits_every_cell_in_reading_order() {
    let plan = smooth_map(4);
    assert_eq!(plan.len(), 4);
    for (r, row) in plan.iter().enumerate() {
        assert_eq!(row.len(), 4);
        for (c, step) in row.iter().enumerate() {
            assert_eq!(*step, smooth_step(4, r, c));
        }
    }
    assert!(smooth_map(0).is_empty());
}

#[test]
fn same_random_values_give_the_same_island() {
    for seed in [1u64, 7, 2024] {
        assert_eq!(island(65, seed), island(65, seed));
    }
    assert_ne!(island(65, 1), island(65, 2));
}

#[test]
fn generated_island_holds_only_bands() {
    let tiles = island(65, 11);
    assert_eq!(tiles.len(), 65);
    for row in &tiles {
        assert_eq!(row.len(), 65);
        for tile in row {
            assert!(matches!(
                tile,
                Tile::DeepWater
                    | Tile::Water
                    | Tile::Sand
                    | Tile::Grass
                    | Tile::Tree
                    | Tile::Mountain
                    | Tile::SnowPeak
            ));
        }
    }
}

#[test]
fn water_gathers_at_the_rim_of_the_island() {
    let size = 65usize;
    let centre = (size / 2) as i64;
    let (mut rim, mut rim_water, mut core, mut core_water) = (0u32, 0u32, 0u32, 0u32);
    for seed in 0..24u64 {
        let tiles = island(size, seed);
        for r in 0..size {
            for c in 0..size {
                let away = (r as i64 - centre).abs().max((c as i64 - centre).abs());
                if away >= centre - 2 {
                    rim += 1;
                    rim_water += is_water(tiles[r][c]) as u32;
                } else if away <= centre / 3 {
                    core += 1;
                    core_water += is_water(tiles[r][c]) as u32;
                }
            }
        }
    }
    // rim_water / rim > core_water / core
    assert!(rim_water as u64 * core as u64 > core_water as u64 * rim as u64);
    assert!(rim_water * 2 > rim);
}
