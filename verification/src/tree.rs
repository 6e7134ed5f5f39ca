//! A directory tree as proofs see it, what a walk of it yields, and why.

use crate::walk::file_paths;
use crate::walk::first_open_dir;
use crate::walk::is_open_dir;
use crate::walk::lemma_first_open_dir_found;
use crate::walk::Item;
use crate::walk::WalkState;
use vstd::prelude::*;

verus! {

/// A file system entry with all that lies below it.
pub ghost enum Node {
    /// Anything that is no directory.
    File { path: Seq<u8> },
    /// A directory and its entries, in the order in which it lists them.
    Dir { path: Seq<u8>, children: Seq<Node> },
}

impl Node {
    /// The entry as a listing of its parent shows it.
    pub open spec fn item(self) -> Item {
        match self {
            Node::File { path } => Item { path, is_dir: false },
            Node::Dir { path, .. } => Item { path, is_dir: true },
        }
    }

    /// The entries of a directory; a file has none.
    pub open spec fn entries(self) -> Seq<Node> {
        match self {
            Node::File { .. } => Seq::empty(),
            Node::Dir { children, .. } => children,
        }
    }

    /// How many nodes the tree under this one has, itself included.
    pub open spec fn size(self) -> nat
        decreases self,
    {
        match self {
            Node::File { .. } => 1,
            Node::Dir { children, .. } => 1 + forest_size(children),
        }
    }
}

/// How many nodes a row of trees has.
pub open spec fn forest_size(nodes: Seq<Node>) -> nat
    decreases nodes,
{
    if nodes.len() == 0 {
        0
    } else {
        forest_size(nodes.drop_last()) + nodes.last().size()
    }
}

/// What a listing of these nodes shows.
pub open spec fn listing_of(nodes: Seq<Node>) -> Seq<Item> {
    Seq::new(nodes.len(), |i: int| nodes[i].item())
}

/// The files that a walk of one tree yields: the file itself; nothing for an
/// ignored directory; else what its entries yield, one after the other.
pub open spec fn visible_files(node: Node, ignore: Seq<Seq<u8>>) -> Seq<Seq<u8>>
    decreases node,
{
    match node {
        Node::File { path } => seq![path],
        Node::Dir { path, children } => if ignore.contains(path) {
            Seq::empty()
        } else {
            forest_files(children, ignore)
        },
    }
}

/// The files that a walk of a row of trees yields, tree after tree.
pub open spec fn forest_files(nodes: Seq<Node>, ignore: Seq<Seq<u8>>) -> Seq<Seq<u8>>
    decreases nodes,
{
    if nodes.len() == 0 {
        Seq::empty()
    } else {
        forest_files(nodes.drop_last(), ignore) + visible_files(nodes.last(), ignore)
    }
}

/// The size of two rows of trees put together is the sum of their sizes.
pub proof fn lemma_forest_size_concat(a: Seq<Node>, b: Seq<Node>)
    ensures
        forest_size(a + b) == forest_size(a) + forest_size(b),
    decreases b.len(),
{
    if b.len() == 0 {
        assert(a + b =~= a);
    } else {
        assert((a + b).drop_last() =~= a + b.drop_last());
        assert((a + b).last() == b.last());
        lemma_forest_size_concat(a, b.drop_last());
    }
}

/// A walk of two rows of trees put together yields what the first row
/// yields, then what the second yields.
pub proof fn lemma_forest_files_concat(a: Seq<Node>, b: Seq<Node>, ignore: Seq<Seq<u8>>)
    ensures
        forest_files(a + b, ignore) == forest_files(a, ignore) + forest_files(b, ignore),
    decreases b.len(),
{
    if b.len() == 0 {
        assert(a + b =~= a);
        assert(forest_files(a, ignore) + forest_files(b, ignore) =~= forest_files(a, ignore));
    } else {
        assert((a + b).drop_last() =~= a + b.drop_last());
        assert((a + b).last() == b.last());
        lemma_forest_files_concat(a, b.drop_last(), ignore);
        assert(forest_files(a + b, ignore) =~= forest_files(a, ignore) + forest_files(b, ignore));
    }
}

/// A row of trees is what comes before one of them, that one, and what
/// comes after it.
pub proof fn lemma_split_at(forest: Seq<Node>, k: int, ignore: Seq<Seq<u8>>)
    requires
        0 <= k < forest.len(),
    ensures
        forest_size(forest) == forest_size(forest.take(k)) + forest[k].size() + forest_size(
            forest.skip(k + 1),
        ),
        forest_files(forest, ignore) == forest_files(forest.take(k), ignore) + visible_files(
            forest[k],
            ignore,
        ) + forest_files(forest.skip(k + 1), ignore),
{
    let head = forest.take(k + 1);
    let tail = forest.skip(k + 1);
    assert(forest =~= head + tail);
    assert(head.drop_last() =~= forest.take(k));
    assert(head.last() == forest[k]);
    lemma_forest_size_concat(head, tail);
    lemma_forest_files_concat(head, tail, ignore);
}

/// Where the walker descends into no tree of a row, the row yields the
/// paths of its files.
pub proof fn lemma_closed_row(nodes: Seq<Node>, ignore: Seq<Seq<u8>>)
    requires
        forall|i: int| 0 <= i < nodes.len() ==> !is_open_dir(#[trigger] nodes[i].item(), ignore),
    ensures
        forest_files(nodes, ignore) == file_paths(listing_of(nodes)),
    decreases nodes.len(),
{
    if nodes.len() > 0 {
        let front = nodes.drop_last();
        assert forall|i: int| 0 <= i < front.len() implies !is_open_dir(
            #[trigger] front[i].item(),
            ignore,
        ) by {
            assert(front[i] == nodes[i]);
        }
        lemma_closed_row(front, ignore);
        assert(listing_of(nodes).drop_last() =~= listing_of(front));
        assert(listing_of(nodes).last() == nodes.last().item());
        assert(!is_open_dir(nodes[nodes.len() - 1].item(), ignore));
        match nodes.last() {
            Node::File { path } => {
                assert(visible_files(nodes.last(), ignore) == seq![path]);
                assert(forest_files(nodes, ignore) == forest_files(front, ignore) + seq![path]);
                assert(forest_files(nodes, ignore) =~= forest_files(front, ignore).push(path));
            },
            Node::Dir { path, children } => {
                assert(ignore.contains(path));
                assert(visible_files(nodes.last(), ignore) == Seq::<Seq<u8>>::empty());
                assert(forest_files(nodes, ignore) =~= forest_files(front, ignore));
            },
        }
    }
}

/// Descending into one tree of a row leaves fewer nodes to walk.
pub proof fn lemma_descent_shrinks(forest: Seq<Node>, k: int)
    requires
        0 <= k < forest.len(),
    ensures
        forest_size(forest[k].entries() + forest.skip(k + 1)) < forest_size(forest),
{
    lemma_split_at(forest, k, Seq::empty());
    lemma_forest_size_concat(forest[k].entries(), forest.skip(k + 1));
    assert(forest_size(Seq::<Node>::empty()) == 0);
}

/// The files found at the end of a walk that goes on from `state` while the
/// file system holds `forest`: the trees that the pending entries stand
/// for, in the same order. Each directory that the walker asks for is
/// answered with the listing of its tree.
pub open spec fn walk_from(state: WalkState, forest: Seq<Node>) -> Seq<Seq<u8>>
    decreases forest_size(forest),
{
    let k = state.passed();
    if 0 <= k < forest.len() && k < state.pending.len() {
        proof {
            lemma_descent_shrinks(forest, k);
        }
        walk_from(
            state.advanced().supplied(listing_of(forest[k].entries())),
            forest[k].entries() + forest.skip(k + 1),
        )
    } else {
        state.advanced().found
    }
}

/// A walk that goes on from any state finds, after what it had found, the
/// files that its pending trees yield.
pub proof fn lemma_walk_from(state: WalkState, forest: Seq<Node>)
    requires
        state.pending == listing_of(forest),
    ensures
        walk_from(state, forest) == state.found + forest_files(forest, state.ignore),
    decreases forest_size(forest),
{
    let ignore = state.ignore;
    let k = state.passed();
    lemma_first_open_dir_found(state.pending, ignore);
    let passed_by = forest.take(k);
    assert forall|i: int| 0 <= i < passed_by.len() implies !is_open_dir(
        #[trigger] passed_by[i].item(),
        ignore,
    ) by {
        assert(passed_by[i].item() == state.pending[i]);
    }
    lemma_closed_row(passed_by, ignore);
    assert(listing_of(passed_by) =~= state.pending.take(k));
    if k < forest.len() {
        let dir = forest[k];
        assert(dir.item() == state.pending[k]);
        assert(is_open_dir(dir.item(), ignore));
        let next = state.advanced().supplied(listing_of(dir.entries()));
        let below = dir.entries() + forest.skip(k + 1);
        assert(next.pending =~= listing_of(below));
        lemma_descent_shrinks(forest, k);
        lemma_walk_from(next, below);
        lemma_forest_files_concat(dir.entries(), forest.skip(k + 1), ignore);
        lemma_split_at(forest, k, ignore);
        assert(visible_files(dir, ignore) == forest_files(dir.entries(), ignore));
        assert(walk_from(state, forest) =~= state.found + forest_files(forest, ignore));
    } else {
        assert(passed_by =~= forest);
        assert(state.pending.take(k) =~= state.pending);
    }
}

/// The walk of a directory finds exactly the files that the tree under it
/// yields, in that order: no file in or below an ignored directory, and
/// every other one.
pub proof fn lemma_walk_finds_visible_files(
    path: Seq<u8>,
    children: Seq<Node>,
    ignore: Seq<Seq<u8>>,
)
    ensures
        walk_from(WalkState::start(path, ignore), seq![Node::Dir { path, children }])
            == visible_files(Node::Dir { path, children }, ignore),
{
    let root = Node::Dir { path, children };
    let state = WalkState::start(path, ignore);
    let forest = seq![root];
    assert(state.pending =~= listing_of(forest));
    lemma_walk_from(state, forest);
    assert(forest.drop_last() =~= Seq::<Node>::empty());
    assert(forest_files(forest.drop_last(), ignore) == Seq::<Seq<u8>>::empty());
    assert(forest.last() == root);
    assert(forest_files(forest, ignore) =~= visible_files(root, ignore));
    assert(state.found + forest_files(forest, ignore) =~= visible_files(root, ignore));
}

/// The node that a way leads to. A way names, step by step, the position of
/// the next node among the entries of the one before.
pub open spec fn node_at(node: Node, way: Seq<int>) -> Option<Node>
    decreases way.len(),
{
    if way.len() == 0 {
        Some(node)
    } else if 0 <= way[0] < node.entries().len() {
        node_at(node.entries()[way[0]], way.skip(1))
    } else {
        None
    }
}

/// Whether a way goes into an ignored directory: the node it starts from,
/// or one that it passes before its end, is a directory whose path is in
/// the ignore list.
pub open spec fn enters_ignored(node: Node, way: Seq<int>, ignore: Seq<Seq<u8>>) -> bool
    decreases way.len(),
{
    if way.len() == 0 {
        false
    } else if node.item().is_dir && ignore.contains(node.item().path) {
        true
    } else if 0 <= way[0] < node.entries().len() {
        enters_ignored(node.entries()[way[0]], way.skip(1), ignore)
    } else {
        false
    }
}

/// Whether a way leads from `node` to a file of this path and goes into no
/// ignored directory.
pub open spec fn open_way_to(node: Node, way: Seq<int>, ignore: Seq<Seq<u8>>, path: Seq<u8>) -> bool {
    node_at(node, way) == Some(Node::File { path }) && !enters_ignored(node, way, ignore)
}

/// What one tree of a row yields, the row yields.
pub proof fn lemma_row_keeps(nodes: Seq<Node>, i: int, ignore: Seq<Seq<u8>>, path: Seq<u8>)
    requires
        0 <= i < nodes.len(),
        visible_files(nodes[i], ignore).contains(path),
    ensures
        forest_files(nodes, ignore).contains(path),
{
    lemma_split_at(nodes, i, ignore);
    let before = forest_files(nodes.take(i), ignore);
    let here = visible_files(nodes[i], ignore);
    let j = choose|j: int| 0 <= j < here.len() && here[j] == path;
    assert(forest_files(nodes, ignore)[before.len() + j] == path);
}

/// What a row of trees yields, one of its trees yields.
pub proof fn lemma_row_source(nodes: Seq<Node>, ignore: Seq<Seq<u8>>, path: Seq<u8>) -> (i: int)
    requires
        forest_files(nodes, ignore).contains(path),
    ensures
        0 <= i < nodes.len(),
        visible_files(nodes[i], ignore).contains(path),
    decreases nodes.len(),
{
    let all = forest_files(nodes, ignore);
    let j = choose|j: int| 0 <= j < all.len() && all[j] == path;
    assert(nodes.len() > 0);
    let front = forest_files(nodes.drop_last(), ignore);
    let back = visible_files(nodes.last(), ignore);
    assert(all == front + back);
    if j < front.len() {
        assert(front[j] == path);
        let i = lemma_row_source(nodes.drop_last(), ignore, path);
        assert(nodes.drop_last()[i] == nodes[i]);
        i
    } else {
        assert(back[j - front.len()] == path);
        nodes.len() - 1
    }
}

/// Each file that the walk of a tree yields lies at the end of a way that
/// goes into no ignored directory.
pub proof fn lemma_visible_file_has_open_way(node: Node, ignore: Seq<Seq<u8>>, path: Seq<u8>) -> (way:
    Seq<int>)
    requires
        visible_files(node, ignore).contains(path),
    ensures
        open_way_to(node, way, ignore, path),
    decreases node,
{
    match node {
        Node::File { path: own } => {
            let found = visible_files(node, ignore);
            let j = choose|j: int| 0 <= j < found.len() && found[j] == path;
            assert(found[j] == own);
            Seq::empty()
        },
        Node::Dir { path: own, children } => {
            assert(!ignore.contains(own));
            let i = lemma_row_source(children, ignore, path);
            let rest = lemma_visible_file_has_open_way(children[i], ignore, path);
            let way = seq![i] + rest;
            assert(way.skip(1) =~= rest);
            assert(way[0] == i);
            way
        },
    }
}

/// The walk of a tree yields each file at the end of a way that goes into
/// no ignored directory.
pub proof fn lemma_open_way_is_visible(
    node: Node,
    way: Seq<int>,
    ignore: Seq<Seq<u8>>,
    path: Seq<u8>,
)
    requires
        open_way_to(node, way, ignore, path),
    ensures
        visible_files(node, ignore).contains(path),
    decreases way.len(),
{
    if way.len() == 0 {
        assert(visible_files(node, ignore)[0] == path);
    } else {
        let i = way[0];
        let children = node.entries();
        assert(0 <= i < children.len());
        lemma_open_way_is_visible(children[i], way.skip(1), ignore, path);
        lemma_row_keeps(children, i, ignore, path);
    }
}

/// A walk yields a path exactly where the tree holds a file of that path
/// that is in no ignored directory, however deep: it yields nothing that is
/// in or below an ignored directory, and every file that is not.
pub proof fn lemma_visible_files_are_the_open_files(node: Node, ignore: Seq<Seq<u8>>, path: Seq<u8>)
    ensures
        visible_files(node, ignore).contains(path) <==> exists|way: Seq<int>|
            open_way_to(node, way, ignore, path),
{
    if visible_files(node, ignore).contains(path) {
        let way = lemma_visible_file_has_open_way(node, ignore, path);
        assert(open_way_to(node, way, ignore, path));
    }
    if exists|way: Seq<int>| open_way_to(node, way, ignore, path) {
        let way = choose|way: Seq<int>| open_way_to(node, way, ignore, path);
        lemma_open_way_is_visible(node, way, ignore, path);
    }
}

/// Whether no two files of the tree have the same path.
pub open spec fn files_are_distinct(node: Node) -> bool {
    forall|a: Seq<int>, b: Seq<int>|
        #![trigger node_at(node, a), node_at(node, b)]
        node_at(node, a) is Some && node_at(node, a)->0 is File && node_at(node, a) == node_at(
            node,
            b,
        ) ==> a == b
}

/// In a tree whose files have distinct paths, a walk yields no path of a
/// file that is in or below an ignored directory.
pub proof fn lemma_ignored_file_is_not_visible(
    node: Node,
    way: Seq<int>,
    ignore: Seq<Seq<u8>>,
    path: Seq<u8>,
)
    requires
        files_are_distinct(node),
        node_at(node, way) == Some(Node::File { path }),
        enters_ignored(node, way, ignore),
    ensures
        !visible_files(node, ignore).contains(path),
{
    if visible_files(node, ignore).contains(path) {
        let open = lemma_visible_file_has_open_way(node, ignore, path);
        assert(node_at(node, open) == node_at(node, way));
        assert(open == way);
    }
}

} // verus!
