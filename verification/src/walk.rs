//! Depth-first enumeration of the files under a directory, skipping ignored
//! directories.
//!
//! The walker never touches the file system. It asks its caller to read one
//! directory at a time and is handed the listing; everything else it decides
//! itself.

use vstd::prelude::*;

verus! {

/// One entry of a directory listing, as taken from the file system.
#[derive(Clone, Debug, PartialEq, Eq)]
pub struct Entry {
    /// The entry's full path, as raw bytes.
    pub path: Vec<u8>,
    /// Whether the entry is a directory.
    pub is_dir: bool,
}

/// What an `Entry` stands for.
#[verifier::ext_equal]
pub ghost struct Item {
    pub path: Seq<u8>,
    pub is_dir: bool,
}

impl View for Entry {
    type V = Item;

    open spec fn view(&self) -> Item {
        Item { path: self.path@, is_dir: self.is_dir }
    }
}

/// What a walker wants done next.
#[derive(Clone, Debug, PartialEq, Eq)]
pub enum WalkAction {
    /// Read this directory and hand its listing to `supply`.
    ReadDir(Vec<u8>),
    /// The walk is over.
    Finished,
}

impl View for WalkAction {
    type V = Option<Seq<u8>>;

    open spec fn view(&self) -> Option<Seq<u8>> {
        match self {
            WalkAction::ReadDir(path) => Some(path@),
            WalkAction::Finished => None,
        }
    }
}

/// The byte strings that a vector of paths holds.
pub open spec fn paths_of(paths: Seq<Vec<u8>>) -> Seq<Seq<u8>> {
    Seq::new(paths.len(), |i: int| paths[i]@)
}

/// The items of a listing.
pub open spec fn items_of(listing: Seq<Entry>) -> Seq<Item> {
    Seq::new(listing.len(), |i: int| listing[i]@)
}

/// Whether the walker descends into an item: a directory that is not ignored.
pub open spec fn is_open_dir(item: Item, ignore: Seq<Seq<u8>>) -> bool {
    item.is_dir && !ignore.contains(item.path)
}

/// The position of the first item that the walker descends into, or the
/// number of items where there is none.
pub open spec fn first_open_dir(items: Seq<Item>, ignore: Seq<Seq<u8>>) -> int
    decreases items.len(),
{
    if items.len() == 0 || is_open_dir(items[0], ignore) {
        0
    } else {
        1 + first_open_dir(items.skip(1), ignore)
    }
}

/// The paths of the items that are no directories, in order.
pub open spec fn file_paths(items: Seq<Item>) -> Seq<Seq<u8>>
    decreases items.len(),
{
    if items.len() == 0 {
        Seq::empty()
    } else if items.last().is_dir {
        file_paths(items.drop_last())
    } else {
        file_paths(items.drop_last()).push(items.last().path)
    }
}

/// What `first_open_dir` is: the one position with no open directory before
/// it that holds an open directory or is the end.
pub proof fn lemma_first_open_dir(items: Seq<Item>, ignore: Seq<Seq<u8>>, k: int)
    requires
        0 <= k <= items.len(),
        forall|i: int| 0 <= i < k ==> !is_open_dir(#[trigger] items[i], ignore),
        k < items.len() ==> is_open_dir(items[k], ignore),
    ensures
        first_open_dir(items, ignore) == k,
    decreases k,
{
    if k > 0 {
        let rest = items.skip(1);
        assert forall|i: int| 0 <= i < k - 1 implies !is_open_dir(#[trigger] rest[i], ignore) by {
            assert(rest[i] == items[i + 1]);
        }
        lemma_first_open_dir(rest, ignore, k - 1);
    }
}

/// The converse: what holds at and before `first_open_dir`.
pub proof fn lemma_first_open_dir_found(items: Seq<Item>, ignore: Seq<Seq<u8>>)
    ensures
        0 <= first_open_dir(items, ignore) <= items.len(),
        forall|i: int|
            0 <= i < first_open_dir(items, ignore) ==> !is_open_dir(#[trigger] items[i], ignore),
        first_open_dir(items, ignore) < items.len() ==> is_open_dir(
            items[first_open_dir(items, ignore)],
            ignore,
        ),
    decreases items.len(),
{
    if items.len() == 0 || is_open_dir(items[0], ignore) {
    } else {
        let rest = items.skip(1);
        lemma_first_open_dir_found(rest, ignore);
        let k = first_open_dir(items, ignore);
        assert forall|i: int| 0 <= i < k implies !is_open_dir(#[trigger] items[i], ignore) by {
            if i > 0 {
                assert(items[i] == rest[i - 1]);
            }
        }
        if k < items.len() {
            assert(items[k] == rest[k - 1]);
        }
    }
}

/// A walk in progress, as proofs see it.
#[verifier::ext_equal]
pub ghost struct WalkState {
    /// The paths of the directories that are skipped.
    pub ignore: Seq<Seq<u8>>,
    /// The entries still to be looked at, the next one first.
    pub pending: Seq<Item>,
    /// The files found so far, in the order of discovery.
    pub found: Seq<Seq<u8>>,
}

impl WalkState {
    /// The state of a walk that has not begun: the root waits to be read.
    pub open spec fn start(root: Seq<u8>, ignore: Seq<Seq<u8>>) -> WalkState {
        WalkState {
            ignore,
            pending: seq![Item { path: root, is_dir: true }],
            found: Seq::empty(),
        }
    }

    /// How many pending entries are passed before a directory has to be read.
    pub open spec fn passed(self) -> int {
        first_open_dir(self.pending, self.ignore)
    }

    /// The directory to read next, if the walk is not over.
    pub open spec fn request(self) -> Option<Seq<u8>> {
        if self.passed() < self.pending.len() {
            Some(self.pending[self.passed()].path)
        } else {
            None
        }
    }

    /// The state after going on to the next directory to read: the files
    /// passed on the way are found, ignored directories are dropped, and
    /// the directory itself is no longer pending.
    pub open spec fn advanced(self) -> WalkState {
        WalkState {
            ignore: self.ignore,
            pending: if self.passed() < self.pending.len() {
                self.pending.skip(self.passed() + 1)
            } else {
                Seq::empty()
            },
            found: self.found + file_paths(self.pending.take(self.passed())),
        }
    }

    /// The state after the listing of the requested directory came in: its
    /// entries are looked at before anything that was pending.
    pub open spec fn supplied(self, listing: Seq<Item>) -> WalkState {
        WalkState { ignore: self.ignore, pending: listing + self.pending, found: self.found }
    }
}

/// The pending entries of a stack, the top of the stack first.
pub open spec fn unstacked(stack: Seq<Entry>) -> Seq<Item> {
    Seq::new(stack.len(), |i: int| stack[stack.len() - 1 - i]@)
}

/// Whether two byte strings are the same.
pub fn same_bytes(a: &[u8], b: &[u8]) -> (same: bool)
    ensures
        same == (a@ == b@),
{
    if a.len() != b.len() {
        return false;
    }
    let mut i: usize = 0;
    while i < a.len()
        invariant
            a.len() == b.len(),
            i <= a.len(),
            forall|j: int| 0 <= j < i ==> a@[j] == b@[j],
        decreases a.len() - i,
    {
        if a[i] != b[i] {
            return false;
        }
        i += 1;
    }
    assert(a@ =~= b@);
    true
}

/// Whether a path is in the ignore list, byte for byte.
pub fn is_ignored(ignore: &Vec<Vec<u8>>, path: &[u8]) -> (found: bool)
    ensures
        found == paths_of(ignore@).contains(path@),
{
    let mut i: usize = 0;
    while i < ignore.len()
        invariant
            i <= ignore.len(),
            forall|j: int| 0 <= j < i ==> paths_of(ignore@)[j] != path@,
        decreases ignore.len() - i,
    {
        if same_bytes(ignore[i].as_slice(), path) {
            assert(paths_of(ignore@)[i as int] == path@);
            return true;
        }
        i += 1;
    }
    false
}

/// A depth-first walk in progress.
pub struct Walker {
    ignore: Vec<Vec<u8>>,
    stack: Vec<Entry>,
    found: Vec<Vec<u8>>,
}

impl View for Walker {
    type V = WalkState;

    closed spec fn view(&self) -> WalkState {
        WalkState {
            ignore: paths_of(self.ignore@),
            pending: unstacked(self.stack@),
            found: paths_of(self.found@),
        }
    }
}

impl Walker {
    /// A walk of the tree under `root` that skips each directory whose path
    /// is in `ignore`, the root too.
    pub fn new(root: Vec<u8>, ignore: Vec<Vec<u8>>) -> (walker: Walker)
        ensures
            walker@ == WalkState::start(root@, paths_of(ignore@)),
    {
        let mut stack: Vec<Entry> = Vec::new();
        stack.push(Entry { path: root, is_dir: true });
        let walker = Walker { ignore, stack, found: Vec::new() };
        assert(walker@.pending =~= seq![Item { path: root@, is_dir: true }]);
        assert(walker@.found =~= Seq::empty());
        walker
    }

    /// Goes on until a directory has to be read or nothing is pending.
    /// Files met on the way are recorded, ignored directories dropped.
    pub fn advance(&mut self) -> (action: WalkAction)
        ensures
            final(self)@ == old(self)@.advanced(),
            action@ == old(self)@.request(),
    {
        let ghost before = self@;
        let ghost mut passed: int = 0;
        proof {
            assert(before.pending.skip(0) =~= before.pending);
            assert(before.pending.take(0) =~= Seq::<Item>::empty());
            assert(self@.found =~= before.found + file_paths(before.pending.take(0)));
        }
        loop
            invariant
                before == old(self)@,
                0 <= passed <= before.pending.len(),
                forall|i: int| 0 <= i < passed ==> !is_open_dir(#[trigger] before.pending[i], before.ignore),
                self@.ignore == before.ignore,
                self@.pending == before.pending.skip(passed),
                self@.found == before.found + file_paths(before.pending.take(passed)),
            decreases self.stack.len(),
        {
            let ghost stack_before = self.stack@;
            let ghost found_before = paths_of(self.found@);
            match self.stack.pop() {
                None => {
                    proof {
                        assert(unstacked(stack_before).len() == 0);
                        assert(passed == before.pending.len());
                        lemma_first_open_dir(before.pending, before.ignore, passed);
                        assert(self@.pending =~= Seq::<Item>::empty());
                        assert(self@ =~= before.advanced());
                    }
                    return WalkAction::Finished;
                },
                Some(entry) => {
                    proof {
                        assert(unstacked(stack_before).len() == stack_before.len());
                        assert(passed < before.pending.len());
                        assert(entry@ == unstacked(stack_before)[0]);
                        assert(entry@ == before.pending[passed]);
                        assert(unstacked(self.stack@) =~= unstacked(stack_before).skip(1));
                        assert(before.pending.skip(passed).skip(1) =~= before.pending.skip(
                            passed + 1,
                        ));
                        assert(before.pending.take(passed + 1).drop_last() =~= before.pending.take(
                            passed,
                        ));
                    }
                    if entry.is_dir {
                        if !is_ignored(&self.ignore, entry.path.as_slice()) {
                            proof {
                                lemma_first_open_dir(before.pending, before.ignore, passed);
                                assert(self@ =~= before.advanced());
                            }
                            return WalkAction::ReadDir(entry.path);
                        }
                    } else {
                        self.found.push(entry.path);
                        proof {
                            assert(paths_of(self.found@) =~= found_before.push(entry@.path));
                        }
                    }
                    proof {
                        assert(self@.found =~= before.found + file_paths(
                            before.pending.take(passed + 1),
                        ));
                        passed = passed + 1;
                    }
                },
            }
        }
    }

    /// Takes in the listing of the directory that `advance` asked for: its
    /// entries come before everything that is still pending, in the order of
    /// the listing.
    pub fn supply(&mut self, listing: Vec<Entry>)
        ensures
            final(self)@ == old(self)@.supplied(items_of(listing@)),
    {
        let ghost before = self@;
        let ghost whole = listing@;
        let mut rest = listing;
        proof {
            assert(items_of(whole).skip(whole.len() as int) + before.pending =~= before.pending);
        }
        loop
            invariant
                before == old(self)@,
                whole == listing@,
                rest@.len() <= whole.len(),
                rest@ == whole.take(rest@.len() as int),
                self@.ignore == before.ignore,
                self@.found == before.found,
                self@.pending == items_of(whole).skip(rest@.len() as int) + before.pending,
            decreases rest.len(),
        {
            let ghost stack_before = self.stack@;
            let ghost left = rest@.len() as int;
            match rest.pop() {
                None => {
                    proof {
                        assert(items_of(whole).skip(0) =~= items_of(whole));
                        assert(self@ =~= before.supplied(items_of(whole)));
                    }
                    return ;
                },
                Some(entry) => {
                    self.stack.push(entry);
                    proof {
                        assert(entry == whole[left - 1]);
                        assert(rest@ =~= whole.take(left - 1));
                        assert(unstacked(self.stack@) =~= seq![entry@] + unstacked(stack_before));
                        assert(seq![entry@] + (items_of(whole).skip(left) + before.pending)
                            =~= items_of(whole).skip(left - 1) + before.pending);
                    }
                },
            }
        }
    }

    /// The files found so far, in the order of discovery. After `advance`
    /// has answered `Finished` these are all the files of the walk.
    pub fn into_files(self) -> (files: Vec<Vec<u8>>)
        ensures
            paths_of(files@) == self@.found,
    {
        self.found
    }
}

} // verus!
