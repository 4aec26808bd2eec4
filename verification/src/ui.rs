//! What the screen shows and what the keys mean: colours and glyphs of the
//! tiles, the commands, where text and cells go on the canvas, and how a
//! long message is cut into pages.

use vstd::prelude::*;
use vstd::string::StrSliceExecFns;
use crate::items::Color;
use crate::map::Tile;

verus! {

/// Columns of the screen, in characters.
pub const SCREEN_WIDTH: u32 = 49;

/// Rows of the screen, in characters.
pub const SCREEN_HEIGHT: u32 = 22;

/// The character that the backspace key gives.
pub const BACKSPACE_CH: char = '\u{0008}';

/// Black, the colour of what is not seen.
#[verifier::allow_in_spec]
pub fn black() -> Color
    returns
        (Color { r: 0, g: 0, b: 0, a: 255 }),
{
    Color { r: 0, g: 0, b: 0, a: 255 }
}

/// White.
#[verifier::allow_in_spec]
pub fn white() -> Color
    returns
        (Color { r: 255, g: 255, b: 255, a: 255 }),
{
    Color { r: 255, g: 255, b: 255, a: 255 }
}

/// Grey.
#[verifier::allow_in_spec]
pub fn grey() -> Color
    returns
        (Color { r: 136, g: 136, b: 136, a: 255 }),
{
    Color { r: 136, g: 136, b: 136, a: 255 }
}

/// Sea green.
#[verifier::allow_in_spec]
pub fn green() -> Color
    returns
        (Color { r: 46, g: 139, b: 87, a: 255 }),
{
    Color { r: 46, g: 139, b: 87, a: 255 }
}

/// Brown.
#[verifier::allow_in_spec]
pub fn brown() -> Color
    returns
        (Color { r: 153, g: 0, b: 0, a: 255 }),
{
    Color { r: 153, g: 0, b: 0, a: 255 }
}

/// Blue.
#[verifier::allow_in_spec]
pub fn blue() -> Color
    returns
        (Color { r: 0, g: 0, b: 221, a: 255 }),
{
    Color { r: 0, g: 0, b: 221, a: 255 }
}

/// Light blue.
#[verifier::allow_in_spec]
pub fn light_blue() -> Color
    returns
        (Color { r: 55, g: 198, b: 255, a: 255 }),
{
    Color { r: 55, g: 198, b: 255, a: 255 }
}

/// Beige.
#[verifier::allow_in_spec]
pub fn beige() -> Color
    returns
        (Color { r: 255, g: 178, b: 127, a: 255 }),
{
    Color { r: 255, g: 178, b: 127, a: 255 }
}

/// What the player can ask for.
#[derive(Debug, Clone, Copy, PartialEq, Eq, Structural)]
pub enum Cmd {
    Exit,
    MoveN,
    MoveS,
    MoveE,
    MoveW,
    MoveNW,
    MoveNE,
    MoveSW,
    MoveSE,
    MsgHistory,
    TmpAsk,
}

/// The symbol and the colour in which a tile is drawn.
pub open spec fn glyph_of(tile: Tile) -> (char, Color) {
    match tile {
        Tile::Blank => (' ', black()),
        Tile::Wall => ('#', grey()),
        Tile::Tree => ('\u{03D9}', green()),
        Tile::Dirt => ('.', brown()),
        Tile::Grass => ('\u{0316}', green()),
        Tile::Player => ('@', white()),
        Tile::Water => ('}', light_blue()),
        Tile::DeepWater => ('}', blue()),
        Tile::Sand => ('.', beige()),
        Tile::StoneFloor => ('.', grey()),
        Tile::Mountain => ('^', grey()),
        Tile::SnowPeak => ('^', white()),
        Tile::Gate => ('#', light_blue()),
    }
}

/// The symbol and the colour in which `tile` is drawn.
pub fn tile_glyph(tile: Tile) -> (res: (char, Color))
    ensures
        res == glyph_of(tile),
{
    match tile {
        Tile::Blank => (' ', black()),
        Tile::Wall => ('#', grey()),
        Tile::Tree => ('\u{03D9}', green()),
        Tile::Dirt => ('.', brown()),
        Tile::Grass => ('\u{0316}', green()),
        Tile::Player => ('@', white()),
        Tile::Water => ('}', light_blue()),
        Tile::DeepWater => ('}', blue()),
        Tile::Sand => ('.', beige()),
        Tile::StoneFloor => ('.', grey()),
        Tile::Mountain => ('^', grey()),
        Tile::SnowPeak => ('^', white()),
        Tile::Gate => ('#', light_blue()),
    }
}

/// The command that a typed character stands for, if it stands for one.
pub open spec fn command_of(key: char) -> Option<Cmd> {
    if key == 'Q' {
        Some(Cmd::Exit)
    } else if key == 'q' {
        Some(Cmd::TmpAsk)
    } else if key == 'k' {
        Some(Cmd::MoveN)
    } else if key == 'j' {
        Some(Cmd::MoveS)
    } else if key == 'l' {
        Some(Cmd::MoveE)
    } else if key == 'h' {
        Some(Cmd::MoveW)
    } else if key == 'y' {
        Some(Cmd::MoveNW)
    } else if key == 'u' {
        Some(Cmd::MoveNE)
    } else if key == 'b' {
        Some(Cmd::MoveSW)
    } else if key == 'n' {
        Some(Cmd::MoveSE)
    } else {
        None
    }
}

/// The command that typed text stands for: that of its one character, and
/// none for any other text.
pub open spec fn text_command_of(text: Seq<char>) -> Option<Cmd> {
    if text.len() == 1 {
        command_of(text[0])
    } else {
        None
    }
}

/// The direction in which a command moves the player, if it moves it.
pub open spec fn direction_of(cmd: Cmd) -> Option<Seq<char>> {
    match cmd {
        Cmd::MoveW => Some("W"@),
        Cmd::MoveS => Some("S"@),
        Cmd::MoveN => Some("N"@),
        Cmd::MoveE => Some("E"@),
        Cmd::MoveNW => Some("NW"@),
        Cmd::MoveNE => Some("NE"@),
        Cmd::MoveSW => Some("SW"@),
        Cmd::MoveSE => Some("SE"@),
        _ => None,
    }
}

/// The direction in which `cmd` moves the player, if it moves it.
pub fn command_direction(cmd: Cmd) -> (res: Option<&'static str>)
    ensures
        match res {
            Some(dir) => direction_of(cmd) == Some(dir@),
            None => direction_of(cmd) is None,
        },
{
    match cmd {
        Cmd::MoveW => Some("W"),
        Cmd::MoveS => Some("S"),
        Cmd::MoveN => Some("N"),
        Cmd::MoveE => Some("E"),
        Cmd::MoveNW => Some("NW"),
        Cmd::MoveNE => Some("NE"),
        Cmd::MoveSW => Some("SW"),
        Cmd::MoveSE => Some("SE"),
        _ => None,
    }
}

/// The command that the typed character `key` stands for, if it stands for
/// one.
pub fn key_command(key: char) -> (res: Option<Cmd>)
    ensures
        res == command_of(key),
{
    if key == 'Q' {
        Some(Cmd::Exit)
    } else if key == 'q' {
        Some(Cmd::TmpAsk)
    } else if key == 'k' {
        Some(Cmd::MoveN)
    } else if key == 'j' {
        Some(Cmd::MoveS)
    } else if key == 'l' {
        Some(Cmd::MoveE)
    } else if key == 'h' {
        Some(Cmd::MoveW)
    } else if key == 'y' {
        Some(Cmd::MoveNW)
    } else if key == 'u' {
        Some(Cmd::MoveNE)
    } else if key == 'b' {
        Some(Cmd::MoveSW)
    } else if key == 'n' {
        Some(Cmd::MoveSE)
    } else {
        None
    }
}

/// The command that the typed text `val` stands for, if it stands for one.
pub fn text_command(val: &str) -> (res: Option<Cmd>)
    ensures
        res == text_command_of(val@),
{
    if val.unicode_len() == 1 {
        key_command(val.get_char(0))
    } else {
        None
    }
}

/// What a key does to the answer that the player is typing: the return key
/// ends it, the backspace key takes its last character away, if it has one,
/// and any other key adds its character.
pub open spec fn typed(answer: Seq<char>, key: char) -> Seq<char> {
    if key == '\n' {
        answer
    } else if key == BACKSPACE_CH {
        if answer.len() > 0 {
            answer.drop_last()
        } else {
            answer
        }
    } else {
        answer.push(key)
    }
}

/// Applies the key `ch` to the answer that the player is typing, and says
/// whether the answer is complete.
pub fn answer_key(answer: &mut Vec<char>, ch: char) -> (done: bool)
    ensures
        done == (ch == '\n'),
        final(answer)@ == typed(old(answer)@, ch),
{
    if ch == '\n' {
        true
    } else if ch == BACKSPACE_CH {
        answer.pop();
        false
    } else {
        answer.push(ch);
        false
    }
}

/// The size of the canvas in pixels, for a font whose characters are
/// `font_width` by `font_height` pixels.
pub fn screen_size(font_width: u32, font_height: u32) -> (res: (u32, u32))
    requires
        SCREEN_WIDTH * font_width <= u32::MAX,
        SCREEN_HEIGHT * font_height <= u32::MAX,
    ensures
        res.0 == SCREEN_WIDTH * font_width,
        res.1 == SCREEN_HEIGHT * font_height,
{
    (SCREEN_WIDTH * font_width, SCREEN_HEIGHT * font_height)
}

/// A rectangle on the canvas: left, top, width, height.
#[derive(Debug, Clone, Copy, PartialEq, Eq, Structural)]
pub struct Rect {
    pub x: i32,
    pub y: i32,
    pub w: u32,
    pub h: u32,
}

/// Where row `row` of text lies on the canvas, for a line of `len`
/// characters in a font of `fw` by `fh` pixels. A line of no characters
/// takes the whole width `screen_width_px`.
pub open spec fn line_rect_of(row: int, len: int, fw: int, fh: int, screen_width_px: int) -> (
    int,
    int,
    int,
    int,
) {
    (
        0,
        row * fh,
        if len == 0 {
            screen_width_px
        } else {
            len * fw
        },
        fh,
    )
}

/// Where row `row` of text lies on the canvas.
pub fn line_rect(row: i32, len: usize, fw: u32, fh: u32, screen_width_px: u32) -> (rect: Rect)
    requires
        i32::MIN <= row * fh <= i32::MAX,
        len * fw <= u32::MAX,
    ensures
        (rect.x as int, rect.y as int, rect.w as int, rect.h as int) == line_rect_of(
            row as int,
            len as int,
            fw as int,
            fh as int,
            screen_width_px as int,
        ),
{
    let y = (row as i64) * (fh as i64);
    if len == 0 {
        Rect { x: 0, y: y as i32, w: screen_width_px, h: fh }
    } else {
        let w = (len as u64) * (fw as u64);
        Rect { x: 0, y: y as i32, w: w as u32, h: fh }
    }
}

/// Where cell `(r, c)` of the visibility window lies on the canvas, under
/// one row of text, for a font of `fw` by `fh` pixels.
pub fn cell_rect(r: usize, c: usize, fw: u32, fh: u32) -> (rect: Rect)
    requires
        c * fw <= i32::MAX,
        (r + 1) * fh <= i32::MAX,
    ensures
        rect.x == c * fw,
        rect.y == (r + 1) * fh,
        rect.w == fw,
        rect.h == fh,
{
    let x = (c as u64) * (fw as u64);
    let y = if fh == 0 {
        0
    } else {
        assert(r + 1 <= i32::MAX) by (nonlinear_arith)
            requires
                (r + 1) * fh <= i32::MAX,
                fh >= 1,
                r >= 0,
        ;
        (r as u64 + 1) * (fh as u64)
    };
    Rect { x: x as i32, y: y as i32, w: fw, h: fh }
}

/// `pages` cuts `line_count` lines into pages of `per_page` lines: the pages
/// follow one another from the first line to the last, every page but the
/// last is full, and the last holds at least one line unless there is no
/// line at all. With `per_page` zero everything is on one page.
pub open spec fn paged(pages: Seq<(usize, usize)>, line_count: int, per_page: int) -> bool {
    &&& pages.len() >= 1
    &&& pages[0].0 == 0
    &&& pages[pages.len() - 1].1 == line_count
    &&& forall|p: int| 0 <= p < pages.len() - 1 ==> (#[trigger] pages[p]).1 == pages[p + 1].0
    &&& forall|p: int|
        0 <= p < pages.len() - 1 ==> (#[trigger] pages[p]).1 - pages[p].0 == per_page
    &&& pages[pages.len() - 1].0 <= line_count
    &&& (line_count > 0 ==> pages[pages.len() - 1].0 < line_count)
    &&& (per_page > 0 ==> line_count - pages[pages.len() - 1].0 <= per_page)
    &&& (per_page == 0 ==> pages.len() == 1)
}

/// Cuts a message of `line_count` lines into the pages that a screen of
/// `display_lines` rows shows in turn, each as the range of its lines. Two
/// rows of the screen are kept for the request to go on.
pub fn paginate(line_count: usize, display_lines: usize) -> (pages: Vec<(usize, usize)>)
    requires
        display_lines >= 2,
    ensures
        paged(pages@, line_count as int, display_lines - 2),
{
    let per_page = display_lines - 2;
    let mut pages: Vec<(usize, usize)> = Vec::new();
    let mut start: usize = 0;
    while per_page > 0 && line_count - start > per_page
        invariant
            start <= line_count,
            line_count > 0 ==> start < line_count,
            per_page == display_lines - 2,
            per_page > 0 || pages@.len() == 0,
            pages@.len() > 0 ==> pages@[0].0 == 0 && pages@[pages@.len() - 1].1 == start,
            pages@.len() == 0 ==> start == 0,
            forall|p: int| 0 <= p < pages@.len() - 1 ==> (#[trigger] pages@[p]).1 == pages@[p + 1].0,
            forall|p: int| 0 <= p < pages@.len() ==> (#[trigger] pages@[p]).1 - pages@[p].0 == per_page,
        decreases line_count - start,
    {
        pages.push((start, start + per_page));
        start = start + per_page;
    }
    pages.push((start, line_count));
    pages
}

} // verus!
