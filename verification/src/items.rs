//! Items, and the stacks in which they lie on the cells of the map.

use std::collections::VecDeque;
use vstd::prelude::*;

verus! {

/// A colour by its red, green, blue and alpha parts.
#[derive(Debug, Clone, Copy, PartialEq, Eq, Structural)]
pub struct Color {
    pub r: u8,
    pub g: u8,
    pub b: u8,
    pub a: u8,
}

/// What is drawn for a thing on the map: a colour and a symbol.
pub trait TileInfo {
    fn get_tile_info(&self) -> (Color, char);
}

/// The kinds of items.
#[derive(Debug, Clone, Copy, PartialEq, Eq, Structural)]
pub enum ItemType {
    Weapon,
    Clothing,
    Drink,
}

/// A thing that can lie on the map.
#[derive(Debug)]
pub struct Item {
    pub name: String,
    pub item_type: ItemType,
    pub weight: u8,
    pub symbol: char,
    pub color: Color,
}

impl Item {
    pub fn new(name: &str, item_type: ItemType, w: u8, sym: char, color: Color) -> (item: Item)
        ensures
            item.name@ == name@,
            item.item_type == item_type,
            item.weight == w,
            item.symbol == sym,
            item.color == color,
    {
        Item { name: name.to_owned(), item_type, weight: w, symbol: sym, color }
    }
}

impl TileInfo for Item {
    fn get_tile_info(&self) -> (info: (Color, char))
        ensures
            info == (self.color, self.symbol),
    {
        (self.color, self.symbol)
    }
}

/// The items on one cell, the topmost first.
#[derive(Debug)]
pub struct Stack {
    pub row: usize,
    pub col: usize,
    pub items: VecDeque<Item>,
}

/// The stacks of items on the map, by cell.
#[derive(Debug)]
pub struct ItemsTable {
    stacks: Vec<Stack>,
}

/// The index of the first of `stacks` that lies on `(r, c)`, or the number
/// of stacks if none does.
spec fn stack_index(stacks: Seq<Stack>, r: int, c: int) -> int
    decreases stacks.len(),
{
    if stacks.len() == 0 {
        0
    } else if stacks[0].row == r && stacks[0].col == c {
        0
    } else {
        1 + stack_index(stacks.subrange(1, stacks.len() as int), r, c)
    }
}

/// The items that `stacks` holds on `(r, c)`, the topmost first.
spec fn items_on(stacks: Seq<Stack>, r: int, c: int) -> Seq<Item> {
    let i = stack_index(stacks, r, c);
    if i < stacks.len() {
        stacks[i].items@
    } else {
        Seq::empty()
    }
}

proof fn lemma_stack_index(stacks: Seq<Stack>, r: int, c: int)
    ensures
        0 <= stack_index(stacks, r, c) <= stacks.len(),
        stack_index(stacks, r, c) < stacks.len() ==> stacks[stack_index(stacks, r, c)].row == r
            && stacks[stack_index(stacks, r, c)].col == c,
        forall|k: int|
            0 <= k < stack_index(stacks, r, c) ==> !((#[trigger] stacks[k]).row == r && stacks[k].col
                == c),
    decreases stacks.len(),
{
    if stacks.len() > 0 && !(stacks[0].row == r && stacks[0].col == c) {
        let rest = stacks.subrange(1, stacks.len() as int);
        lemma_stack_index(rest, r, c);
        assert forall|k: int| 0 <= k < stack_index(stacks, r, c) implies !((
        #[trigger] stacks[k]).row == r && stacks[k].col == c) by {
            if k > 0 {
                assert(stacks[k] == rest[k - 1]);
            }
        }
    }
}

/// The first stack on a cell is where the search for it ends: the index `i`
/// is the first of a stack on `(r, c)`, or the number of stacks where there
/// is none.
proof fn lemma_stack_index_is(stacks: Seq<Stack>, r: int, c: int, i: int)
    requires
        0 <= i <= stacks.len(),
        i < stacks.len() ==> stacks[i].row == r && stacks[i].col == c,
        forall|k: int| 0 <= k < i ==> !((#[trigger] stacks[k]).row == r && stacks[k].col == c),
    ensures
        stack_index(stacks, r, c) == i,
{
    lemma_stack_index(stacks, r, c);
    let j = stack_index(stacks, r, c);
    if j < i {
        assert(!(stacks[j].row == r && stacks[j].col == c));
    }
}

/// A new stack at the end is found only where no earlier stack lies on its
/// cell, and changes nothing on any other cell.
proof fn lemma_items_on_push(stacks: Seq<Stack>, stack: Stack, r: int, c: int)
    ensures
        items_on(stacks.push(stack), r, c) == (if stack_index(stacks, r, c) == stacks.len()
            && stack.row == r && stack.col == c {
            stack.items@
        } else {
            items_on(stacks, r, c)
        }),
{
    let longer = stacks.push(stack);
    let i = stack_index(stacks, r, c);
    lemma_stack_index(stacks, r, c);
    if i < stacks.len() || (stack.row == r && stack.col == c) {
        lemma_stack_index_is(longer, r, c, i);
    } else {
        lemma_stack_index_is(longer, r, c, i + 1);
    }
}

/// New contents for the stack at index `i` are found on that stack's cell
/// where it is the first on it, and change nothing on any other cell.
proof fn lemma_items_on_change(before: Seq<Stack>, after: Seq<Stack>, i: int, r: int, c: int)
    requires
        0 <= i < before.len(),
        after.len() == before.len(),
        forall|k: int|
            0 <= k < before.len() ==> (#[trigger] after[k]).row == before[k].row && after[k].col
                == before[k].col && (k != i ==> after[k].items@ == before[k].items@),
    ensures
        items_on(after, r, c) == (if stack_index(before, r, c) == i {
            after[i].items@
        } else {
            items_on(before, r, c)
        }),
{
    lemma_stack_index(before, r, c);
    lemma_stack_index_is(after, r, c, stack_index(before, r, c));
}

impl ItemsTable {
    /// The items on `(r, c)`, the topmost first.
    pub closed spec fn stack_at(&self, r: int, c: int) -> Seq<Item> {
        items_on(self.stacks@, r, c)
    }

    /// A table with no items in it.
    pub fn new() -> (table: ItemsTable)
        ensures
            forall|r: int, c: int| (#[trigger] table.stack_at(r, c)).len() == 0,
    {
        ItemsTable { stacks: Vec::new() }
    }

    /// Where the stack on `(r, c)` is held, if there is one.
    fn find(&self, r: usize, c: usize) -> (i: usize)
        ensures
            i == stack_index(self.stacks@, r as int, c as int),
            i <= self.stacks@.len(),
    {
        let mut i: usize = 0;
        while i < self.stacks.len()
            invariant
                i <= self.stacks@.len(),
                forall|k: int|
                    0 <= k < i ==> !((#[trigger] self.stacks@[k]).row == r && self.stacks@[k].col
                        == c),
            decreases self.stacks@.len() - i,
        {
            if self.stacks[i].row == r && self.stacks[i].col == c {
                proof {
                    lemma_stack_index_is(self.stacks@, r as int, c as int, i as int);
                }
                return i;
            }
            i += 1;
        }
        proof {
            lemma_stack_index_is(self.stacks@, r as int, c as int, i as int);
        }
        i
    }

    /// Puts `item` on top of the stack on `(r, c)`.
    pub fn add(&mut self, r: usize, c: usize, item: Item)
        ensures
            final(self).stack_at(r as int, c as int) == seq![item] + old(self).stack_at(
                r as int,
                c as int,
            ),
            forall|r2: int, c2: int|
                !(r2 == r && c2 == c) ==> #[trigger] final(self).stack_at(r2, c2) == old(
                    self,
                ).stack_at(r2, c2),
    {
        let i = self.find(r, c);
        let ghost before = self.stacks@;
        if i == self.stacks.len() {
            let stack = Stack { row: r, col: c, items: VecDeque::new() };
            proof {
                assert forall|r2: int, c2: int| #[trigger] items_on(
                    before.push(stack),
                    r2,
                    c2,
                ) =~= items_on(before, r2, c2) by {
                    lemma_items_on_push(before, stack, r2, c2);
                }
                lemma_stack_index(before, r as int, c as int);
                lemma_stack_index_is(before.push(stack), r as int, c as int, i as int);
            }
            self.stacks.push(stack);
        }
        let ghost mid = self.stacks@;
        self.stacks[i].items.push_front(item);
        proof {
            let after = self.stacks@;
            lemma_stack_index(mid, r as int, c as int);
            assert forall|r2: int, c2: int| #[trigger] items_on(after, r2, c2) == (
            if stack_index(mid, r2, c2) == i {
                after[i as int].items@
            } else {
                items_on(mid, r2, c2)
            }) by {
                lemma_items_on_change(mid, after, i as int, r2, c2);
            }
            assert forall|r2: int, c2: int| !(r2 == r && c2 == c) implies #[trigger] self.stack_at(
                r2,
                c2,
            ) == old(self).stack_at(r2, c2) by {
                lemma_stack_index(mid, r2, c2);
                assert(items_on(after, r2, c2) == items_on(mid, r2, c2));
                assert(items_on(mid, r2, c2) == items_on(before, r2, c2));
            }
            assert(items_on(after, r as int, c as int) == after[i as int].items@);
            assert(items_on(mid, r as int, c as int) == items_on(before, r as int, c as int));
        }
    }

    /// Whether no item lies on `(r, c)`.
    pub fn is_empty(&self, r: usize, c: usize) -> (res: bool)
        ensures
            res == (self.stack_at(r as int, c as int).len() == 0),
    {
        let i = self.find(r, c);
        let res = if i == self.stacks.len() {
            true
        } else if self.stacks[i].items.len() == 0 {
            true
        } else {
            false
        };

        res
    }

    /// How many items lie on `(r, c)`.
    pub fn count_at(&self, r: usize, c: usize) -> (n: usize)
        ensures
            n == self.stack_at(r as int, c as int).len(),
    {
        let i = self.find(r, c);
        if i == self.stacks.len() {
            0
        } else {
            self.stacks[i].items.len()
        }
    }

    /// The topmost item on `(r, c)`.
    pub fn get_top(&self, r: usize, c: usize) -> (item: &Item)
        requires
            self.stack_at(r as int, c as int).len() > 0,
        ensures
            *item == self.stack_at(r as int, c as int)[0],
    {
        let i = self.find(r, c);
        &self.stacks[i].items[0]
    }
}

} // verus!
