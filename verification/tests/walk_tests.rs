use frzr::walk::is_ignored;
use frzr::walk::same_bytes;
use frzr::walk::Entry;
use frzr::walk::WalkAction;
use frzr::walk::Walker;

fn file(path: &str) -> Entry {
    Entry { path: path.as_bytes().to_vec(), is_dir: false }
}

fn dir(path: &str) -> Entry {
    Entry { path: path.as_bytes().to_vec(), is_dir: true }
}

fn paths(list: &[&str]) -> Vec<Vec<u8>> {
    list.iter().map(|p| p.as_bytes().to_vec()).collect()
}

/// Walks a tree that is given as the listing of each of its directories.
/// Returns the files found and the directories read, in order.
fn walk(
    tree: &[(&str, Vec<Entry>)],
    root: &str,
    ignore: &[&str],
) -> (Vec<Vec<u8>>, Vec<Vec<u8>>) {
    let mut walker = Walker::new(root.as_bytes().to_vec(), paths(ignore));
    let mut read: Vec<Vec<u8>> = Vec::new();
    loop {
        match walker.advance() {
            WalkAction::Finished => break,
            WalkAction::ReadDir(path) => {
                let listing = tree
                    .iter()
                    .find(|(name, _)| name.as_bytes() == &path[..])
                    .map(|(_, listing)| listing.clone())
                    .expect("the walker asked for a directory that the tree does not have");
                read.push(path);
                walker.supply(listing);
            }
        }
    }
    (walker.into_files(), read)
}

fn sample() -> Vec<(&'static str, Vec<Entry>)> {
    vec![
        (".", vec![dir("./b"), file("./a"), dir("./.git"), dir("./empty"), file("./z")]),
        ("./b", vec![file("./b/c"), dir("./b/d"), file("./b/e")]),
        ("./b/d", vec![file("./b/d/f")]),
        ("./.git", vec![file("./.git/config"), dir("./.git/objects")]),
        ("./.git/objects", vec![file("./.git/objects/0a")]),
        ("./empty", vec![]),
    ]
}

#[test]
fn walk_finds_every_file_depth_first() {
    let (files, read) = walk(&sample(), ".", &[]);
    assert_eq!(
        files,
        paths(&[
            "./b/c",
            "./b/d/f",
            "./b/e",
            "./a",
            "./.git/config",
            "./.git/objects/0a",
            "./z",
        ])
    );
    assert_eq!(read, paths(&[".", "./b", "./b/d", "./.git", "./.git/objects", "./empty"]));
}

#[test]
fn walk_skips_ignored_directories_and_all_below_them() {
    let (files, read) = walk(&sample(), ".", &["./.git", "./target"]);
    assert_eq!(files, paths(&["./b/c", "./b/d/f", "./b/e", "./a", "./z"]));
    assert_eq!(read, paths(&[".", "./b", "./b/d", "./empty"]));
}

#[test]
fn walk_skips_a_nested_ignored_directory() {
    let (files, read) = walk(&sample(), ".", &["./b/d", "./.git/objects"]);
    assert_eq!(files, paths(&["./b/c", "./b/e", "./a", "./.git/config", "./z"]));
    assert_eq!(read, paths(&[".", "./b", "./.git", "./empty"]));
}

#[test]
fn walk_of_an_ignored_root_reads_nothing() {
    let (files, read) = walk(&sample(), ".", &["."]);
    assert_eq!(files, Vec::<Vec<u8>>::new());
    assert_eq!(read, Vec::<Vec<u8>>::new());
}

#[test]
fn walk_of_an_empty_directory_finds_nothing() {
    let tree: Vec<(&str, Vec<Entry>)> = vec![(".", vec![])];
    let (files, read) = walk(&tree, ".", &[]);
    assert_eq!(files, Vec::<Vec<u8>>::new());
    assert_eq!(read, paths(&["."]));
}

#[test]
fn ignore_list_matches_directories_only_and_exactly() {
    let tree: Vec<(&str, Vec<Entry>)> = vec![
        (".", vec![file("./target"), dir("./targets"), dir("./sub")]),
        ("./targets", vec![file("./targets/x")]),
        ("./sub", vec![dir("./sub/target")]),
        ("./sub/target", vec![file("./sub/target/y")]),
    ];
    let (files, _) = walk(&tree, ".", &["./target", "./sub/"]);
    assert_eq!(files, paths(&["./target", "./targets/x", "./sub/target/y"]));
}

#[test]
fn example_tree_yields_both_files() {
    let tree: Vec<(&str, Vec<Entry>)> =
        vec![(".", vec![file("a"), dir("b")]), ("b", vec![file("b/c")])];
    let (files, _) = walk(&tree, ".", &[]);
    assert_eq!(files, paths(&["a", "b/c"]));
}

#[test]
fn advance_asks_for_the_root_first() {
    let mut walker = Walker::new(b"/data".to_vec(), Vec::new());
    assert_eq!(walker.advance(), WalkAction::ReadDir(b"/data".to_vec()));
    walker.supply(vec![file("/data/x")]);
    assert_eq!(walker.advance(), WalkAction::Finished);
    assert_eq!(walker.advance(), WalkAction::Finished);
    assert_eq!(walker.into_files(), paths(&["/data/x"]));
}

#[test]
fn paths_that_are_no_valid_text_are_kept_byte_for_byte() {
    let odd: Vec<u8> = vec![b'.', b'/', 0xff, 0xfe, b'x'];
    let mut walker = Walker::new(b".".to_vec(), Vec::new());
    assert_eq!(walker.advance(), WalkAction::ReadDir(b".".to_vec()));
    walker.supply(vec![Entry { path: odd.clone(), is_dir: false }]);
    assert_eq!(walker.advance(), WalkAction::Finished);
    assert_eq!(walker.into_files(), vec![odd]);
}

#[test]
fn same_bytes_compares_length_and_content() {
    assert!(same_bytes(b"", b""));
    assert!(same_bytes(b"./.git", b"./.git"));
    assert!(!same_bytes(b"./.git", b"./.gi"));
    assert!(!same_bytes(b"./.git", b"./.gix"));
    assert!(!same_bytes(b"a", b""));
}

#[test]
fn is_ignored_looks_for_the_exact_path() {
    let ignore = paths(&["./.git", "./target"]);
    assert!(is_ignored(&ignore, b"./.git"));
    assert!(is_ignored(&ignore, b"./target"));
    assert!(!is_ignored(&ignore, b"./targe"));
    assert!(!is_ignored(&ignore, b"./target/"));
    assert!(!is_ignored(&Vec::new(), b"./target"));
}
