//! The state of a game in progress, the message log, and the rules of
//! movement.

use std::collections::VecDeque;
use vstd::prelude::*;
use vstd::string::StringExecFns;
use crate::actor::{is_occupied, occupied, Monster};
use crate::items::ItemsTable;
use crate::map::{inside, is_passable, is_square, passable, Tile};
use crate::text::{decimal, decimal_digits};

verus! {

/// How many messages the log keeps.
pub const MSG_HISTORY_LENGTH: usize = 50;

/// Where the player stands, the message on show, and the log of past
/// messages, the newest first, each with the number of times it came in a
/// row.
#[derive(Debug)]
pub struct GameState {
    pub player_row: usize,
    pub player_col: usize,
    pub msg_buff: String,
    pub msg_history: VecDeque<(String, u32)>,
}

/// A log: messages with their counts, the newest first.
pub type Log = Seq<(Seq<char>, u32)>;

/// The log after `msg` has come in: an empty message leaves it as it is, a
/// message equal to the newest entry raises that entry's count, and any
/// other message becomes the newest entry with count 1, the oldest entry
/// leaving where the log would grow beyond `MSG_HISTORY_LENGTH`.
pub open spec fn logged(log: Log, msg: Seq<char>) -> Log {
    if msg.len() == 0 {
        log
    } else if log.len() > 0 && log[0].0 == msg {
        log.update(0, (msg, (log[0].1 + 1) as u32))
    } else if log.len() + 1 > MSG_HISTORY_LENGTH {
        (seq![(msg, 1u32)] + log).drop_last()
    } else {
        seq![(msg, 1u32)] + log
    }
}

impl GameState {
    /// The log, the newest message first.
    pub open spec fn log(&self) -> Log {
        self.msg_history@.map_values(|entry: (String, u32)| (entry.0@, entry.1))
    }

    /// The log is no longer than `MSG_HISTORY_LENGTH`.
    pub open spec fn well_formed(&self) -> bool {
        self.msg_history@.len() <= MSG_HISTORY_LENGTH
    }

    /// Whether `msg` can be logged: a message that repeats the newest entry
    /// needs room in that entry's count.
    pub open spec fn can_log(&self, msg: Seq<char>) -> bool {
        msg.len() > 0 && self.log().len() > 0 && self.log()[0].0 == msg ==> self.log()[0].1
            < u32::MAX
    }

    /// A game with the player on `(r, c)`, no message on show and an empty
    /// log.
    pub fn new(r: usize, c: usize) -> (state: GameState)
        ensures
            state.player_row == r,
            state.player_col == c,
            state.msg_buff@.len() == 0,
            state.log().len() == 0,
            state.well_formed(),
    {
        GameState { player_row: r, player_col: c, msg_buff: String::new(), msg_history: VecDeque::new() }
    }

    /// Puts `msg` on show and logs it.
    pub fn write_msg_buff(&mut self, msg: &str)
        requires
            old(self).well_formed(),
            old(self).can_log(msg@),
        ensures
            final(self).well_formed(),
            final(self).msg_buff@ == msg@,
            final(self).log() == logged(old(self).log(), msg@),
            final(self).player_row == old(self).player_row,
            final(self).player_col == old(self).player_col,
    {
        self.msg_buff = msg.to_owned();
        let ghost before = self.msg_history@;
        let ghost old_log = self.log();

        if !msg.is_empty() {
            if self.msg_history.len() == 0 || !(self.msg_history[0].0 == self.msg_buff) {
                self.msg_history.push_front((msg.to_owned(), 1));
                proof {
                    assert(self.log() =~= seq![(msg@, 1u32)] + old_log);
                }
            } else {
                assert(old_log[0] == (before[0].0@, before[0].1));
                match self.msg_history.pop_front() {
                    Some((text, count)) => {
                        self.msg_history.push_front((text, count + 1));
                    },
                    None => {},
                }
                proof {
                    assert(self.log() =~= old_log.update(0, (msg@, (old_log[0].1 + 1) as u32)));
                }
            }

            if self.msg_history.len() > MSG_HISTORY_LENGTH {
                let ghost full = self.log();
                self.msg_history.pop_back();
                proof {
                    assert(self.log() =~= full.drop_last());
                }
            }
        }
    }
}

/// The step that a direction stands for, as a change of row and of column:
/// north is up, west is left, and whatever is no other direction is south
/// east.
pub open spec fn move_of(mv: Seq<char>) -> (int, int) {
    if mv == "N"@ {
        (-1, 0)
    } else if mv == "S"@ {
        (1, 0)
    } else if mv == "W"@ {
        (0, -1)
    } else if mv == "E"@ {
        (0, 1)
    } else if mv == "NW"@ {
        (-1, -1)
    } else if mv == "NE"@ {
        (-1, 1)
    } else if mv == "SW"@ {
        (1, -1)
    } else {
        (1, 1)
    }
}

/// Whether two texts are the same.
fn same_text(a: &str, b: &str) -> (res: bool)
    ensures
        res == (a@ == b@),
{
    a.to_owned() == b.to_owned()
}

/// The step that the direction `mv` stands for.
pub fn get_move_tuple(mv: &str) -> (res: (i16, i16))
    ensures
        (res.0 as int, res.1 as int) == move_of(mv@),
{
    let res: (i16, i16);

    if same_text(mv, "N") {
        res = (-1, 0)
    } else if same_text(mv, "S") {
        res = (1, 0)
    } else if same_text(mv, "W") {
        res = (0, -1)
    } else if same_text(mv, "E") {
        res = (0, 1)
    } else if same_text(mv, "NW") {
        res = (-1, -1)
    } else if same_text(mv, "NE") {
        res = (-1, 1)
    } else if same_text(mv, "SW") {
        res = (1, -1)
    } else {
        res = (1, 1)
    }

    res
}

/// Where a step in direction `dir` from `(row, col)` leads.
pub open spec fn step_target(row: int, col: int, dir: Seq<char>) -> (int, int) {
    (row + move_of(dir).0, col + move_of(dir).1)
}

/// What is said of the ground that the player steps on: something of
/// shallow water, nothing of anything else.
pub open spec fn ground_message(tile: Tile) -> Seq<char> {
    if tile is Water {
        "You splash in the shallow water."@
    } else {
        Seq::empty()
    }
}

/// What is said of the items on the cell that the player steps on: the name
/// of a single item, a few words for several, nothing where there is none.
pub open spec fn items_message(names: Seq<Seq<char>>) -> Seq<char> {
    if names.len() == 1 {
        "You see a "@ + names[0] + " here."@
    } else if names.len() > 1 {
        "You see a few items here."@
    } else {
        Seq::empty()
    }
}

/// What is said when the player cannot step on `tile`.
pub open spec fn refusal_message(tile: Tile) -> Seq<char> {
    if tile is DeepWater {
        "You cannot swim!"@
    } else {
        "You cannot go that way."@
    }
}

/// The names of the items of a stack, the topmost first.
pub open spec fn names_of(stack: Seq<crate::items::Item>) -> Seq<Seq<char>> {
    stack.map_values(|item: crate::items::Item| item.name@)
}

/// `after` is what a step toward `target`, a cell holding `tile`, makes of
/// `before`. Where someone stands on the target, or the tile cannot be
/// stepped on, the player stays and is told so. Otherwise the player moves
/// there, and is told of the ground and then of the items `names` on it;
/// the message on show is the last of the two that says anything.
pub open spec fn moved(
    before: GameState,
    after: GameState,
    target: (int, int),
    tile: Tile,
    someone: bool,
    names: Seq<Seq<char>>,
) -> bool {
    if someone {
        &&& after.player_row == before.player_row
        &&& after.player_col == before.player_col
        &&& after.msg_buff@ == "There is someone in your way!"@
        &&& after.log() == logged(before.log(), "There is someone in your way!"@)
    } else if passable(tile) {
        &&& after.player_row == target.0
        &&& after.player_col == target.1
        &&& after.msg_buff@ == (if names.len() > 0 {
            items_message(names)
        } else {
            ground_message(tile)
        })
        &&& after.log() == logged(logged(before.log(), ground_message(tile)), items_message(names))
    } else {
        &&& after.player_row == before.player_row
        &&& after.player_col == before.player_col
        &&& after.msg_buff@ == refusal_message(tile)
        &&& after.log() == logged(before.log(), refusal_message(tile))
    }
}

impl GameState {
    /// The count of the newest entry of the log can still be raised.
    pub open spec fn has_room(&self) -> bool {
        self.log().len() > 0 ==> self.log()[0].1 < u32::MAX
    }
}

/// `row` moved by `by`, which is -1, 0 or 1.
fn stepped(row: usize, by: i16) -> (res: usize)
    requires
        -1 <= by <= 1,
        0 <= row + by <= usize::MAX,
    ensures
        res == row + by,
{
    if by < 0 {
        row - 1
    } else if by > 0 {
        row + 1
    } else {
        row
    }
}

/// Moves the player one step in direction `dir`, if the cell there can be
/// stepped on and nobody stands on it, and says what came of it.
pub fn do_move(
    map: &Vec<Vec<Tile>>,
    state: &mut GameState,
    npcs: &Vec<Monster>,
    items: &ItemsTable,
    dir: &str,
)
    requires
        is_square(map@),
        old(state).well_formed(),
        old(state).has_room(),
        inside(
            map@.len() as int,
            step_target(old(state).player_row as int, old(state).player_col as int, dir@).0,
            step_target(old(state).player_row as int, old(state).player_col as int, dir@).1,
        ),
    ensures
        final(state).well_formed(),
        moved(
            *old(state),
            *final(state),
            step_target(old(state).player_row as int, old(state).player_col as int, dir@),
            map@[step_target(
                old(state).player_row as int,
                old(state).player_col as int,
                dir@,
            ).0]@[step_target(old(state).player_row as int, old(state).player_col as int, dir@).1],
            occupied(
                npcs@,
                step_target(old(state).player_row as int, old(state).player_col as int, dir@).0,
                step_target(old(state).player_row as int, old(state).player_col as int, dir@).1,
            ),
            names_of(
                items.stack_at(
                    step_target(old(state).player_row as int, old(state).player_col as int, dir@).0,
                    step_target(old(state).player_row as int, old(state).player_col as int, dir@).1,
                ),
            ),
        ),
{
    let mv = get_move_tuple(dir);
    assert(move_of(dir@) == (mv.0 as int, mv.1 as int));
    assert(map@.len() == map.len());
    let next_row = stepped(state.player_row, mv.0);
    let next_col = stepped(state.player_col, mv.1);
    let tile = map[next_row][next_col];
    proof {
        reveal_strlit("There is someone in your way!");
        reveal_strlit("You splash in the shallow water.");
        reveal_strlit("You see a ");
        reveal_strlit(" here.");
        reveal_strlit("You see a few items here.");
        reveal_strlit("You cannot swim!");
        reveal_strlit("You cannot go that way.");
        reveal_strlit("");
    }

    if is_occupied(npcs, next_row, next_col) {
        state.write_msg_buff("There is someone in your way!");
    } else if is_passable(tile) {
        state.player_col = next_col;
        state.player_row = next_row;

        if tile == Tile::Water {
            state.write_msg_buff("You splash in the shallow water.");
        } else {
            state.write_msg_buff("");
            assert(state.msg_buff@ =~= ground_message(tile));
        }

        let items_count = items.count_at(state.player_row, state.player_col);
        let ghost stack = items.stack_at(next_row as int, next_col as int);
        assert(names_of(stack).len() == items_count);
        if items_count == 1 {
            let i = items.get_top(state.player_row, state.player_col);
            let s = String::from_str("You see a ").concat(i.name.as_str()).concat(" here.");
            assert(s@ == items_message(names_of(stack)));
            assert(s@[5] == 'e');
            state.write_msg_buff(s.as_str());
        } else if items_count > 1 {
            state.write_msg_buff("You see a few items here.");
        }
    } else {
        if tile == Tile::DeepWater {
            state.write_msg_buff("You cannot swim!");
        } else {
            state.write_msg_buff("You cannot go that way.");
        }
    }
}

/// The line that the history shows for an entry of the log: the message,
/// followed by the number of times it came in a row where that is more than
/// once.
pub open spec fn entry_line(entry: (Seq<char>, u32)) -> Seq<char> {
    if entry.1 > 1 {
        entry.0 + " (x"@ + decimal_digits(entry.1 as nat) + ")"@
    } else {
        entry.0
    }
}

/// The lines that the history shows for a log: an empty line, then one line
/// for every entry, the newest first.
pub open spec fn history_of(log: Log) -> Seq<Seq<char>> {
    seq![Seq::<char>::empty()] + log.map_values(|entry: (Seq<char>, u32)| entry_line(entry))
}

/// The texts of a list of lines.
pub open spec fn texts(lines: Seq<String>) -> Seq<Seq<char>> {
    lines.map_values(|line: String| line@)
}

/// The lines that the history of messages shows.
pub fn show_message_history(state: &GameState) -> (lines: Vec<String>)
    ensures
        texts(lines@) == history_of(state.log()),
{
    let mut lines: Vec<String> = Vec::new();
    lines.push(String::new());
    let mut j: usize = 0;
    while j < state.msg_history.len()
        invariant
            j <= state.msg_history@.len(),
            lines@.len() == j + 1,
            lines@[0]@ == Seq::<char>::empty(),
            forall|k: int| 0 <= k < j ==> (#[trigger] lines@[k + 1])@ == entry_line(state.log()[k]),
        decreases state.msg_history@.len() - j,
    {
        let mut s = state.msg_history[j].0.clone();
        if state.msg_history[j].1 > 1 {
            s.append(" (x");
            s.append(decimal(state.msg_history[j].1).as_str());
            s.append(")");
        }
        lines.push(s);
        j += 1;
    }
    proof {
        let shown = history_of(state.log());
        assert(texts(lines@).len() == shown.len());
        assert forall|i: int| 0 <= i < shown.len() implies texts(lines@)[i] == shown[i] by {
            if i > 0 {
                assert(lines@[(i - 1) + 1]@ == entry_line(state.log()[i - 1]));
            }
        }
        assert(texts(lines@) =~= shown);
    }
    lines
}

} // verus!
