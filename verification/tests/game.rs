use terrain_fov::actor::Monster;
use terrain_fov::game::{
    do_move, get_move_tuple, show_message_history, GameState, MSG_HISTORY_LENGTH,
};
use terrain_fov::items::{Color, Item, ItemType, ItemsTable};
use terrain_fov::map::Tile;
use terrain_fov::text::decimal;

const INK: Color = Color { r: 1, g: 2, b: 3, a: 255 };

fn history(state: &GameState) -> Vec<(String, u32)> {
    state.msg_history.iter().cloned().collect()
}

fn entry(text: &str, count: u32) -> (String, u32) {
    (text.to_string(), count)
}

/// A map of dirt, five cells a side, with `tile` one step east of the
/// centre.
fn room_with(tile: Tile) -> Vec<Vec<Tile>> {
    let mut map = vec![vec![Tile::Dirt; 5]; 5];
    map[2][3] = tile;
    map
}

#[test]
fn new_game_has_no_messages() {
    let state = GameState::new(3, 8);
    assert_eq!(state.player_row, 3);
    assert_eq!(state.player_col, 8);
    assert_eq!(state.msg_buff, "");
    assert!(state.msg_history.is_empty());
}

#[test]
fn message_is_shown_and_logged_newest_first() {
    let mut state = GameState::new(0, 0);
    state.write_msg_buff("one");
    state.write_msg_buff("two");
    assert_eq!(state.msg_buff, "two");
    assert_eq!(history(&state), vec![entry("two", 1), entry("one", 1)]);
    assert_eq!((state.player_row, state.player_col), (0, 0));
}

#[test]
fn repeated_message_raises_the_count_of_the_newest_entry() {
    let mut state = GameState::new(0, 0);
    state.write_msg_buff("ouch");
    state.write_msg_buff("ouch");
    state.write_msg_buff("ouch");
    assert_eq!(history(&state), vec![entry("ouch", 3)]);
    state.write_msg_buff("hm");
    state.write_msg_buff("ouch");
    assert_eq!(history(&state), vec![entry("ouch", 1), entry("hm", 1), entry("ouch", 3)]);
}

#[test]
fn empty_message_clears_the_line_and_leaves_the_log() {
    let mut state = GameState::new(0, 0);
    state.write_msg_buff("one");
    state.write_msg_buff("");
    assert_eq!(state.msg_buff, "");
    assert_eq!(history(&state), vec![entry("one", 1)]);
}

#[test]
fn log_keeps_the_newest_fifty_messages() {
    let mut state = GameState::new(0, 0);
    for i in 0..MSG_HISTORY_LENGTH + 10 {
        state.write_msg_buff(&format!("message {}", i));
        assert!(state.msg_history.len() <= 50);
    }
    assert_eq!(state.msg_history.len(), 50);
    assert_eq!(state.msg_history[0], entry("message 59", 1));
    assert_eq!(state.msg_history[49], entry("message 10", 1));
    // A repeat changes a count and drops nothing.
    state.write_msg_buff("message 59");
    assert_eq!(state.msg_history.len(), 50);
    assert_eq!(state.msg_history[0], entry("message 59", 2));
    assert_eq!(state.msg_history[49], entry("message 10", 1));
}

#[test]
fn directions_are_steps_on_the_grid() {
    assert_eq!(get_move_tuple("N"), (-1, 0));
    assert_eq!(get_move_tuple("S"), (1, 0));
    assert_eq!(get_move_tuple("W"), (0, -1));
    assert_eq!(get_move_tuple("E"), (0, 1));
    assert_eq!(get_move_tuple("NW"), (-1, -1));
    assert_eq!(get_move_tuple("NE"), (-1, 1));
    assert_eq!(get_move_tuple("SW"), (1, -1));
    assert_eq!(get_move_tuple("SE"), (1, 1));
}

#[test]
fn anything_else_is_south_east() {
    assert_eq!(get_move_tuple(""), (1, 1));
    assert_eq!(get_move_tuple("n"), (1, 1));
    assert_eq!(get_move_tuple("NN"), (1, 1));
    assert_eq!(get_move_tuple("up"), (1, 1));
}

#[test]
fn step_onto_dirt_moves_and_says_nothing() {
    let map = room_with(Tile::Dirt);
    let mut state = GameState::new(2, 2);
    state.write_msg_buff("before");
    do_move(&map, &mut state, &Vec::new(), &ItemsTable::new(), "E");
    assert_eq!((state.player_row, state.player_col), (2, 3));
    assert_eq!(state.msg_buff, "");
    assert_eq!(history(&state), vec![entry("before", 1)]);
}

#[test]
fn step_in_each_direction_lands_on_the_neighbour() {
    let map = vec![vec![Tile::Grass; 5]; 5];
    let steps = [
        ("N", (1, 2)),
        ("S", (3, 2)),
        ("W", (2, 1)),
        ("E", (2, 3)),
        ("NW", (1, 1)),
        ("NE", (1, 3)),
        ("SW", (3, 1)),
        ("SE", (3, 3)),
    ];
    for (dir, target) in steps {
        let mut state = GameState::new(2, 2);
        do_move(&map, &mut state, &Vec::new(), &ItemsTable::new(), dir);
        assert_eq!((state.player_row, state.player_col), target, "{}", dir);
    }
}

#[test]
fn step_into_shallow_water_splashes() {
    let map = room_with(Tile::Water);
    let mut state = GameState::new(2, 2);
    do_move(&map, &mut state, &Vec::new(), &ItemsTable::new(), "E");
    assert_eq!((state.player_row, state.player_col), (2, 3));
    assert_eq!(state.msg_buff, "You splash in the shallow water.");
    assert_eq!(history(&state), vec![entry("You splash in the shallow water.", 1)]);
}

#[test]
fn deep_water_cannot_be_swum() {
    let map = room_with(Tile::DeepWater);
    let mut state = GameState::new(2, 2);
    do_move(&map, &mut state, &Vec::new(), &ItemsTable::new(), "E");
    assert_eq!((state.player_row, state.player_col), (2, 2));
    assert_eq!(state.msg_buff, "You cannot swim!");
}

#[test]
fn walls_mountains_and_gates_stop_the_player() {
    for tile in [Tile::Wall, Tile::Mountain, Tile::SnowPeak, Tile::Gate, Tile::Blank] {
        let map = room_with(tile);
        let mut state = GameState::new(2, 2);
        do_move(&map, &mut state, &Vec::new(), &ItemsTable::new(), "E");
        assert_eq!((state.player_row, state.player_col), (2, 2));
        assert_eq!(state.msg_buff, "You cannot go that way.");
        do_move(&map, &mut state, &Vec::new(), &ItemsTable::new(), "E");
        assert_eq!(history(&state), vec![entry("You cannot go that way.", 2)]);
    }
}

#[test]
fn someone_in_the_way_stops_the_player_even_on_open_ground() {
    let map = room_with(Tile::Dirt);
    let npcs = vec![Monster::new(13, 25, 'o', 2, 3, INK)];
    let mut state = GameState::new(2, 2);
    do_move(&map, &mut state, &npcs, &ItemsTable::new(), "E");
    assert_eq!((state.player_row, state.player_col), (2, 2));
    assert_eq!(state.msg_buff, "There is someone in your way!");
    // Someone standing in deep water is still what the player is told of.
    let map = room_with(Tile::DeepWater);
    do_move(&map, &mut state, &npcs, &ItemsTable::new(), "E");
    assert_eq!(history(&state), vec![entry("There is someone in your way!", 2)]);
    // A step another way is free.
    do_move(&map, &mut state, &npcs, &ItemsTable::new(), "W");
    assert_eq!((state.player_row, state.player_col), (2, 1));
}

#[test]
fn single_item_is_named() {
    let map = room_with(Tile::Dirt);
    let mut items = ItemsTable::new();
    items.add(2, 3, Item::new("rusty cutlass", ItemType::Weapon, 3, '|', INK));
    let mut state = GameState::new(2, 2);
    do_move(&map, &mut state, &Vec::new(), &items, "E");
    assert_eq!((state.player_row, state.player_col), (2, 3));
    assert_eq!(state.msg_buff, "You see a rusty cutlass here.");
    assert_eq!(history(&state), vec![entry("You see a rusty cutlass here.", 1)]);
}

#[test]
fn several_items_are_a_few() {
    let map = room_with(Tile::Water);
    let mut items = ItemsTable::new();
    items.add(2, 3, Item::new("rusty cutlass", ItemType::Weapon, 3, '|', INK));
    items.add(2, 3, Item::new("draught of rum", ItemType::Drink, 1, '!', INK));
    let mut state = GameState::new(2, 2);
    do_move(&map, &mut state, &Vec::new(), &items, "E");
    assert_eq!(state.msg_buff, "You see a few items here.");
    assert_eq!(
        history(&state),
        vec![entry("You see a few items here.", 1), entry("You splash in the shallow water.", 1)]
    );
}

#[test]
fn items_on_a_cell_that_is_not_entered_are_not_seen() {
    let map = room_with(Tile::Wall);
    let mut items = ItemsTable::new();
    items.add(2, 3, Item::new("rusty cutlass", ItemType::Weapon, 3, '|', INK));
    let mut state = GameState::new(2, 2);
    do_move(&map, &mut state, &Vec::new(), &items, "E");
    assert_eq!(state.msg_buff, "You cannot go that way.");
}

#[test]
fn history_shows_counts_above_one() {
    let mut state = GameState::new(0, 0);
    assert_eq!(show_message_history(&state), vec![String::new()]);
    state.write_msg_buff("first");
    for _ in 0..12 {
        state.write_msg_buff("You cannot swim!");
    }
    state.write_msg_buff("last");
    assert_eq!(
        show_message_history(&state),
        vec!["", "last", "You cannot swim! (x12)", "first"]
    );
}

#[test]
fn decimal_writes_numbers_without_leading_zeros() {
    assert_eq!(decimal(0), "0");
    assert_eq!(decimal(7), "7");
    assert_eq!(decimal(10), "10");
    assert_eq!(decimal(1909), "1909");
    assert_eq!(decimal(123_456_789), "123456789");
    assert_eq!(decimal(u32::MAX), "4294967295");
    for n in (0..100_000u32).step_by(37) {
        assert_eq!(decimal(n), n.to_string());
    }
}
