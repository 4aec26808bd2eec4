use terrain_fov::items::Color;
use terrain_fov::map::Tile;
use terrain_fov::ui::{
    answer_key, beige, black, blue, brown, cell_rect, command_direction, green, grey, key_command,
    light_blue, line_rect, paginate, screen_size, text_command, tile_glyph, white, Cmd, Rect,
    BACKSPACE_CH, SCREEN_HEIGHT, SCREEN_WIDTH,
};

fn rgba(r: u8, g: u8, b: u8, a: u8) -> Color {
    Color { r, g, b, a }
}

#[test]
fn palette_has_its_eight_colours() {
    assert_eq!(black(), rgba(0, 0, 0, 255));
    assert_eq!(white(), rgba(255, 255, 255, 255));
    assert_eq!(grey(), rgba(136, 136, 136, 255));
    assert_eq!(green(), rgba(46, 139, 87, 255));
    assert_eq!(brown(), rgba(153, 0, 0, 255));
    assert_eq!(blue(), rgba(0, 0, 221, 255));
    assert_eq!(light_blue(), rgba(55, 198, 255, 255));
    assert_eq!(beige(), rgba(255, 178, 127, 255));
}

#[test]
fn every_tile_has_its_glyph() {
    assert_eq!(tile_glyph(Tile::Blank), (' ', black()));
    assert_eq!(tile_glyph(Tile::Wall), ('#', grey()));
    assert_eq!(tile_glyph(Tile::Tree), ('\u{03D9}', green()));
    assert_eq!(tile_glyph(Tile::Dirt), ('.', brown()));
    assert_eq!(tile_glyph(Tile::Grass), ('\u{0316}', green()));
    assert_eq!(tile_glyph(Tile::Player), ('@', white()));
    assert_eq!(tile_glyph(Tile::Water), ('}', light_blue()));
    assert_eq!(tile_glyph(Tile::DeepWater), ('}', blue()));
    assert_eq!(tile_glyph(Tile::Sand), ('.', beige()));
    assert_eq!(tile_glyph(Tile::StoneFloor), ('.', grey()));
    assert_eq!(tile_glyph(Tile::Mountain), ('^', grey()));
    assert_eq!(tile_glyph(Tile::SnowPeak), ('^', white()));
    assert_eq!(tile_glyph(Tile::Gate), ('#', light_blue()));
}

#[test]
fn keys_stand_for_commands() {
    assert_eq!(key_command('Q'), Some(Cmd::Exit));
    assert_eq!(key_command('q'), Some(Cmd::TmpAsk));
    assert_eq!(key_command('k'), Some(Cmd::MoveN));
    assert_eq!(key_command('j'), Some(Cmd::MoveS));
    assert_eq!(key_command('l'), Some(Cmd::MoveE));
    assert_eq!(key_command('h'), Some(Cmd::MoveW));
    assert_eq!(key_command('y'), Some(Cmd::MoveNW));
    assert_eq!(key_command('u'), Some(Cmd::MoveNE));
    assert_eq!(key_command('b'), Some(Cmd::MoveSW));
    assert_eq!(key_command('n'), Some(Cmd::MoveSE));
    for key in ['K', 'x', ' ', '\n', '7'] {
        assert_eq!(key_command(key), None);
    }
}

#[test]
fn only_a_single_character_is_a_command() {
    assert_eq!(text_command("k"), Some(Cmd::MoveN));
    assert_eq!(text_command("Q"), Some(Cmd::Exit));
    assert_eq!(text_command(""), None);
    assert_eq!(text_command("kk"), None);
    assert_eq!(text_command("x"), None);
    assert_eq!(text_command("\u{03D9}"), None);
}

#[test]
fn moves_have_a_direction_and_other_commands_none() {
    assert_eq!(command_direction(Cmd::MoveN), Some("N"));
    assert_eq!(command_direction(Cmd::MoveS), Some("S"));
    assert_eq!(command_direction(Cmd::MoveE), Some("E"));
    assert_eq!(command_direction(Cmd::MoveW), Some("W"));
    assert_eq!(command_direction(Cmd::MoveNW), Some("NW"));
    assert_eq!(command_direction(Cmd::MoveNE), Some("NE"));
    assert_eq!(command_direction(Cmd::MoveSW), Some("SW"));
    assert_eq!(command_direction(Cmd::MoveSE), Some("SE"));
    assert_eq!(command_direction(Cmd::Exit), None);
    assert_eq!(command_direction(Cmd::MsgHistory), None);
    assert_eq!(command_direction(Cmd::TmpAsk), None);
}

#[test]
fn typing_builds_the_answer() {
    let mut answer = Vec::new();
    assert!(!answer_key(&mut answer, 'a'));
    assert!(!answer_key(&mut answer, 'b'));
    assert_eq!(answer, vec!['a', 'b']);
    assert!(!answer_key(&mut answer, BACKSPACE_CH));
    assert_eq!(answer, vec!['a']);
    assert!(!answer_key(&mut answer, BACKSPACE_CH));
    assert!(!answer_key(&mut answer, BACKSPACE_CH));
    assert!(answer.is_empty());
    assert!(!answer_key(&mut answer, 'z'));
    assert!(answer_key(&mut answer, '\n'));
    assert_eq!(answer, vec!['z']);
}

#[test]
fn screen_is_forty_nine_by_twenty_two_characters() {
    assert_eq!((SCREEN_WIDTH, SCREEN_HEIGHT), (49, 22));
    assert_eq!(screen_size(14, 29), (686, 638));
    assert_eq!(screen_size(0, 0), (0, 0));
}

#[test]
fn line_lies_at_its_row_and_is_as_wide_as_its_text() {
    assert_eq!(line_rect(0, 5, 14, 29, 686), Rect { x: 0, y: 0, w: 70, h: 29 });
    assert_eq!(line_rect(3, 29, 11, 22, 686), Rect { x: 0, y: 66, w: 319, h: 22 });
    assert_eq!(line_rect(-1, 1, 14, 29, 686), Rect { x: 0, y: -29, w: 14, h: 29 });
}

#[test]
fn empty_line_spans_the_screen() {
    assert_eq!(line_rect(2, 0, 14, 29, 686), Rect { x: 0, y: 58, w: 686, h: 29 });
}

#[test]
fn cells_lie_under_the_message_line() {
    assert_eq!(cell_rect(0, 0, 14, 29), Rect { x: 0, y: 29, w: 14, h: 29 });
    assert_eq!(cell_rect(20, 40, 14, 29), Rect { x: 560, y: 609, w: 14, h: 29 });
    assert_eq!(cell_rect(usize::MAX - 1, 3, 2, 0), Rect { x: 6, y: 0, w: 2, h: 0 });
}

#[test]
fn long_message_is_cut_into_full_pages() {
    // A screen of 7 rows shows 5 lines to a page.
    assert_eq!(paginate(12, 7), vec![(0, 5), (5, 10), (10, 12)]);
    assert_eq!(paginate(10, 7), vec![(0, 5), (5, 10)]);
    assert_eq!(paginate(5, 7), vec![(0, 5)]);
    assert_eq!(paginate(6, 7), vec![(0, 5), (5, 6)]);
    assert_eq!(paginate(1, 3), vec![(0, 1)]);
    assert_eq!(paginate(3, 3), vec![(0, 1), (1, 2), (2, 3)]);
}

#[test]
fn message_of_no_lines_is_one_empty_page() {
    assert_eq!(paginate(0, 7), vec![(0, 0)]);
    assert_eq!(paginate(0, 2), vec![(0, 0)]);
}

#[test]
fn screen_without_room_for_lines_never_turns_the_page() {
    assert_eq!(paginate(40, 2), vec![(0, 40)]);
}
