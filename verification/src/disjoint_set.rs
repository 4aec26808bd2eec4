//! Sets of cells that are merged as their cells turn out to be connected.
//!
//! Every cell that the structure knows has an entry: the cell that stands
//! for its set, and the size of that set as far as it is known.

use vstd::prelude::*;

verus! {

/// A cell of the grid.
pub type Cell = (usize, usize);

/// What is known of a cell: the cell that stands for its set, and a size.
pub type Entry = (Cell, u32);

/// One cell with its entry.
#[derive(Debug, Clone, Copy)]
pub struct Node {
    pub key: Cell,
    pub parent: Cell,
    pub size: u32,
}

/// The cells that are known, each with its entry.
#[derive(Debug)]
pub struct DisjointSet {
    nodes: Vec<Node>,
}

/// The index of the first of `nodes` that is about `key`, or the number of
/// nodes if none is.
spec fn node_index(nodes: Seq<Node>, key: Cell) -> int
    decreases nodes.len(),
{
    if nodes.len() == 0 {
        0
    } else if nodes[0].key == key {
        0
    } else {
        1 + node_index(nodes.subrange(1, nodes.len() as int), key)
    }
}

/// The entries that `nodes` hold, by cell.
spec fn entries(nodes: Seq<Node>) -> Map<Cell, Entry> {
    Map::new(
        |key: Cell| node_index(nodes, key) < nodes.len(),
        |key: Cell| (nodes[node_index(nodes, key)].parent, nodes[node_index(nodes, key)].size),
    )
}

/// What is known once `n` has been looked up: what was known, with `n`
/// standing for a set of its own of size 1 if it was not known before.
pub open spec fn found(known: Map<Cell, Entry>, n: Cell) -> Map<Cell, Entry> {
    if known.dom().contains(n) {
        known
    } else {
        known.insert(n, (n, 1u32))
    }
}

/// The size that merging the sets of `n1` and `n2` gives the merged set:
/// the size held by the cell that stands for the larger set, the second
/// where they are equal, and the size held by the cell, of `n1` and `n2`,
/// that lies in the other.
pub open spec fn merged_size(known: Map<Cell, Entry>, n1: Cell, n2: Cell) -> int {
    let both = found(found(known, n1), n2);
    if both[n1].1 > both[n2].1 {
        both[both[n1].0].1 + both[n2].1
    } else {
        both[both[n2].0].1 + both[n1].1
    }
}

/// What is known once the sets of `n1` and `n2` have been merged. Both
/// cells are looked up first. The larger of the two sets, the second where
/// they are equal, takes the other in: the cell that stands for it gets the
/// merged size, and the cell that stood for the other set gets it too and
/// from now on points to the cell, of `n1` and `n2`, that lies in the larger
/// set.
pub open spec fn united(known: Map<Cell, Entry>, n1: Cell, n2: Cell) -> Map<Cell, Entry> {
    let both = found(found(known, n1), n2);
    let s1 = both[n1];
    let s2 = both[n2];
    let total = merged_size(known, n1, n2) as u32;
    if s1.1 > s2.1 {
        both.insert(s1.0, (both[s1.0].0, total)).insert(s2.0, (n1, total))
    } else {
        both.insert(s2.0, (both[s2.0].0, total)).insert(s1.0, (n2, total))
    }
}

/// The cell that stands for the set of every known cell is known itself.
pub open spec fn parents_known(known: Map<Cell, Entry>) -> bool {
    forall|key: Cell| #[trigger] known.dom().contains(key) ==> known.dom().contains(known[key].0)
}

proof fn lemma_node_index(nodes: Seq<Node>, key: Cell)
    ensures
        0 <= node_index(nodes, key) <= nodes.len(),
        node_index(nodes, key) < nodes.len() ==> nodes[node_index(nodes, key)].key == key,
        forall|k: int| 0 <= k < node_index(nodes, key) ==> (#[trigger] nodes[k]).key != key,
    decreases nodes.len(),
{
    if nodes.len() > 0 && nodes[0].key != key {
        let rest = nodes.subrange(1, nodes.len() as int);
        lemma_node_index(rest, key);
        assert forall|k: int| 0 <= k < node_index(nodes, key) implies (#[trigger] nodes[k]).key
            != key by {
            if k > 0 {
                assert(nodes[k] == rest[k - 1]);
            }
        }
    }
}

proof fn lemma_node_index_is(nodes: Seq<Node>, key: Cell, i: int)
    requires
        0 <= i <= nodes.len(),
        i < nodes.len() ==> nodes[i].key == key,
        forall|k: int| 0 <= k < i ==> (#[trigger] nodes[k]).key != key,
    ensures
        node_index(nodes, key) == i,
{
    lemma_node_index(nodes, key);
    let j = node_index(nodes, key);
    if j < i {
        assert(nodes[j].key != key);
    }
}

/// A new node for an unknown cell adds that cell's entry and changes no
/// other.
proof fn lemma_entries_push(nodes: Seq<Node>, node: Node)
    requires
        !entries(nodes).dom().contains(node.key),
    ensures
        entries(nodes.push(node)) == entries(nodes).insert(node.key, (node.parent, node.size)),
{
    let longer = nodes.push(node);
    assert forall|key: Cell| (#[trigger] entries(longer).dom().contains(key)
        == entries(nodes).insert(node.key, (node.parent, node.size)).dom().contains(key)) && (
    entries(longer).dom().contains(key) ==> entries(longer)[key] == entries(nodes).insert(
        node.key,
        (node.parent, node.size),
    )[key]) by {
        lemma_node_index(nodes, key);
        lemma_node_index(nodes, node.key);
        let i = node_index(nodes, key);
        if i < nodes.len() || key == node.key {
            lemma_node_index_is(longer, key, i);
        } else {
            lemma_node_index_is(longer, key, i + 1);
        }
    }
    assert(entries(longer) =~= entries(nodes).insert(node.key, (node.parent, node.size)));
}

/// A new entry in the node at index `i` changes that node's cell and no
/// other.
proof fn lemma_entries_update(nodes: Seq<Node>, i: int, node: Node)
    requires
        0 <= i < nodes.len(),
        node.key == nodes[i].key,
        node_index(nodes, node.key) == i,
    ensures
        entries(nodes.update(i, node)) == entries(nodes).insert(node.key, (node.parent, node.size)),
{
    let changed = nodes.update(i, node);
    assert forall|key: Cell| (#[trigger] entries(changed).dom().contains(key)
        == entries(nodes).insert(node.key, (node.parent, node.size)).dom().contains(key)) && (
    entries(changed).dom().contains(key) ==> entries(changed)[key] == entries(nodes).insert(
        node.key,
        (node.parent, node.size),
    )[key]) by {
        lemma_node_index(nodes, key);
        lemma_node_index_is(changed, key, node_index(nodes, key));
    }
    assert(entries(changed) =~= entries(nodes).insert(node.key, (node.parent, node.size)));
}

impl View for DisjointSet {
    type V = Map<Cell, Entry>;

    closed spec fn view(&self) -> Map<Cell, Entry> {
        entries(self.nodes@)
    }
}

impl DisjointSet {
    /// A structure that knows no cell.
    pub fn new() -> (ds: DisjointSet)
        ensures
            ds@ == Map::<Cell, Entry>::empty(),
    {
        let ds = DisjointSet { nodes: Vec::new() };
        assert(ds@ =~= Map::<Cell, Entry>::empty());
        ds
    }

    /// Where the node of `key` is held, if the cell is known.
    fn position(&self, key: Cell) -> (i: usize)
        ensures
            i == node_index(self.nodes@, key),
            i <= self.nodes@.len(),
            i < self.nodes@.len() <==> self@.dom().contains(key),
    {
        let mut i: usize = 0;
        while i < self.nodes.len()
            invariant
                i <= self.nodes@.len(),
                forall|k: int| 0 <= k < i ==> (#[trigger] self.nodes@[k]).key != key,
            decreases self.nodes@.len() - i,
        {
            if self.nodes[i].key.0 == key.0 && self.nodes[i].key.1 == key.1 {
                proof {
                    lemma_node_index_is(self.nodes@, key, i as int);
                }
                return i;
            }
            i += 1;
        }
        proof {
            lemma_node_index_is(self.nodes@, key, i as int);
        }
        i
    }

    /// Gives the known cell `key` a new entry.
    fn set(&mut self, key: Cell, parent: Cell, size: u32)
        requires
            old(self)@.dom().contains(key),
        ensures
            final(self)@ == old(self)@.insert(key, (parent, size)),
    {
        let i = self.position(key);
        let node = Node { key, parent, size };
        proof {
            lemma_node_index(self.nodes@, key);
            lemma_entries_update(self.nodes@, i as int, node);
        }
        self.nodes[i] = node;
    }

    /// The entry of the known cell `key`.
    fn get(&self, key: Cell) -> (entry: Entry)
        requires
            self@.dom().contains(key),
        ensures
            entry == self@[key],
    {
        let i = self.position(key);
        (self.nodes[i].parent, self.nodes[i].size)
    }
}

/// Looks up the cell `n`: gives its entry, after making `n` stand for a set
/// of its own of size 1 if it was not known.
pub fn ds_find(ds: &mut DisjointSet, n: (usize, usize)) -> (res: ((usize, usize), u32))
    ensures
        final(ds)@ == found(old(ds)@, n),
        res == final(ds)@[n],
{
    let i = ds.position(n);
    if i == ds.nodes.len() {
        let node = Node { key: n, parent: n, size: 1 };
        proof {
            lemma_entries_push(ds.nodes@, node);
        }
        ds.nodes.push(node);
    }
    let res = ds.get(n);

    res
}

/// Merges the sets of `n1` and `n2`.
pub fn ds_union(ds: &mut DisjointSet, n1: (usize, usize), n2: (usize, usize))
    requires
        parents_known(old(ds)@),
        merged_size(old(ds)@, n1, n2) <= u32::MAX,
    ensures
        final(ds)@ == united(old(ds)@, n1, n2),
        parents_known(final(ds)@),
{
    ds_find(ds, n1);
    let s2 = ds_find(ds, n2);
    let s1 = ds.get(n1);
    let ghost both = ds@;
    assert(both == found(found(old(ds)@, n1), n2));
    assert(parents_known(both));

    if s1.1 > s2.1 {
        let nv1 = ds.get(s1.0);
        let total = nv1.1 + s2.1;
        ds.set(s1.0, nv1.0, total);
        ds.set(s2.0, n1, total);
    } else {
        let nv1 = ds.get(s2.0);
        let total = nv1.1 + s1.1;
        ds.set(s2.0, nv1.0, total);
        ds.set(s1.0, n2, total);
    }
}

} // verus!
