use file_picker::view::tree::{DirListing, TreeEntry};
use file_picker::path::path_components;
use file_picker::view::{ListViewState, PathSet, TreeViewState, ViewState};
use file_picker::{Entry, EntryKind};

fn entry(name: &str, path: &str, kind: EntryKind) -> Entry {
    Entry { name: name.to_string(), path: path.to_string(), kind }
}

#[test]
fn list_view_state_default() {
    let state = ListViewState::new();
    assert_eq!(state.cursor, 0);
    assert_eq!(state.scroll_offset, 0);
}

#[test]
fn tree_view_state_default() {
    let state = TreeViewState::new();
    assert_eq!(state.cursor, 0);
    assert_eq!(state.scroll_offset, 0);
    assert!(state.expanded.is_empty());
}

#[test]
fn view_state_toggle() {
    let view = ViewState::List(ListViewState::new());
    let toggled = view.toggle();
    assert!(matches!(toggled, ViewState::Tree(_)));
    let back = toggled.toggle();
    assert!(matches!(back, ViewState::List(_)));
}

#[test]
fn toggle_expand() {
    let mut state = TreeViewState::new();
    let path = String::from("/some/dir");
    assert!(!state.is_expanded(&path));
    state.toggle_expand(&path);
    assert!(state.is_expanded(&path));
    state.toggle_expand(&path);
    assert!(!state.is_expanded(&path));
}

#[test]
fn toggle_expand_leaves_other_paths() {
    let mut state = TreeViewState::new();
    let a = String::from("/a");
    let b = String::from("/b");
    state.toggle_expand(&a);
    state.toggle_expand(&b);
    state.toggle_expand(&a);
    assert!(!state.is_expanded(&a));
    assert!(state.is_expanded(&b));
    assert!(!state.expanded.is_empty());
}

#[test]
fn defaults_match_new() {
    let l = ListViewState::default();
    assert_eq!((l.cursor, l.scroll_offset), (0, 0));
    let t = TreeViewState::default();
    assert_eq!((t.cursor, t.scroll_offset), (0, 0));
    assert!(t.expanded.is_empty());
}

#[test]
fn toggle_starts_afresh() {
    let mut list = ListViewState::new();
    list.cursor = 5;
    list.scroll_offset = 2;
    let tree = ViewState::List(list).toggle();
    assert_eq!(tree.cursor(), 0);
    assert_eq!(tree.scroll_offset(), 0);
    match tree {
        ViewState::Tree(t) => assert!(t.expanded.is_empty()),
        ViewState::List(_) => panic!("expected the tree view"),
    }
}

#[test]
fn cursor_and_scroll_write_through() {
    let mut view = ViewState::Tree(TreeViewState::new());
    *view.cursor_mut() = 7;
    *view.scroll_offset_mut() = 3;
    assert_eq!(view.cursor(), 7);
    assert_eq!(view.scroll_offset(), 3);
    assert!(matches!(view, ViewState::Tree(_)));
}

fn sample_listing(root: &str) -> DirListing {
    let subdir = format!("{}/subdir", root);
    let mut listing = DirListing::new();
    assert!(listing.add(
        root.to_string(),
        vec![
            entry("subdir", &subdir, EntryKind::Directory),
            entry("a.txt", &format!("{}/a.txt", root), EntryKind::File),
        ],
    ));
    assert!(listing.add(subdir.clone(), vec![entry("b.txt", &format!("{}/b.txt", subdir), EntryKind::File)]));
    listing
}

#[test]
fn build_tree_flat_when_nothing_expanded() {
    let root = "/tmp/picker";
    let listing = sample_listing(root);
    let state = TreeViewState::new();
    let tree = state.build_tree_entries(&root.to_string(), &listing);
    assert_eq!(tree.len(), 2); // subdir + a.txt
    assert!(tree.iter().all(|e| e.depth == 0));
}

#[test]
fn build_tree_with_expanded_dir() {
    let root = "/tmp/picker";
    let listing = sample_listing(root);
    let subdir = format!("{}/subdir", root);
    let mut state = TreeViewState::new();
    state.toggle_expand(&subdir);
    let tree = state.build_tree_entries(&root.to_string(), &listing);
    assert_eq!(tree.len(), 3); // subdir, b.txt (inside), a.txt
    let sub_entry = tree.iter().find(|e| e.entry.name == "b.txt").unwrap();
    assert_eq!(sub_entry.depth, 1);
}

#[test]
fn build_tree_order_and_depths() {
    let root = "/r";
    let listing = sample_listing(root);
    let mut state = TreeViewState::new();
    state.toggle_expand(&"/r/subdir".to_string());
    let tree: Vec<TreeEntry> = state.build_tree_entries(&root.to_string(), &listing);
    let names: Vec<(&str, usize)> = tree.iter().map(|t| (t.entry.name.as_str(), t.depth)).collect();
    assert_eq!(names, vec![("subdir", 0), ("b.txt", 1), ("a.txt", 0)]);
}

#[test]
fn build_tree_nested_expansion() {
    let mut listing = DirListing::new();
    assert!(listing.add("/r".to_string(), vec![entry("x", "/r/x", EntryKind::Directory)]));
    assert!(listing.add("/r/x".to_string(), vec![entry("y", "/r/x/y", EntryKind::Directory)]));
    assert!(listing.add("/r/x/y".to_string(), vec![entry("z", "/r/x/y/z", EntryKind::File)]));
    let mut state = TreeViewState::new();
    state.toggle_expand(&"/r/x".to_string());
    let tree = state.build_tree_entries(&"/r".to_string(), &listing);
    let depths: Vec<usize> = tree.iter().map(|t| t.depth).collect();
    assert_eq!(depths, vec![0, 1]);
    state.toggle_expand(&"/r/x/y".to_string());
    let tree = state.build_tree_entries(&"/r".to_string(), &listing);
    let names: Vec<(&str, usize)> = tree.iter().map(|t| (t.entry.name.as_str(), t.depth)).collect();
    assert_eq!(names, vec![("x", 0), ("y", 1), ("z", 2)]);
}

#[test]
fn expanded_symlink_is_not_walked() {
    let mut listing = DirListing::new();
    assert!(listing.add("/r".to_string(), vec![entry("link", "/r/link", EntryKind::Symlink)]));
    assert!(listing.add("/r/link".to_string(), vec![entry("f", "/r/link/f", EntryKind::File)]));
    let mut state = TreeViewState::new();
    state.toggle_expand(&"/r/link".to_string());
    let tree = state.build_tree_entries(&"/r".to_string(), &listing);
    assert_eq!(tree.len(), 1);
}

#[test]
fn unknown_root_gives_empty_tree() {
    let listing = DirListing::new();
    let state = TreeViewState::new();
    assert!(state.build_tree_entries(&"/nowhere".to_string(), &listing).is_empty());
}

#[test]
fn listing_refuses_entry_not_below_dir() {
    let mut listing = DirListing::new();
    assert!(!listing.add("/r/long".to_string(), vec![entry("x", "/r/long/", EntryKind::File)]));
    let state = TreeViewState::new();
    assert!(state.build_tree_entries(&"/r/long".to_string(), &listing).is_empty());
}

#[test]
fn later_listing_hides_earlier() {
    let mut listing = DirListing::new();
    assert!(listing.add("/r".to_string(), vec![entry("old", "/r/old", EntryKind::File)]));
    assert!(listing.add("/r".to_string(), vec![entry("new", "/r/new", EntryKind::File), entry("n2", "/r/n2", EntryKind::File)]));
    let state = TreeViewState::new();
    let tree = state.build_tree_entries(&"/r".to_string(), &listing);
    assert_eq!(tree.len(), 2);
    assert_eq!(tree[0].entry.name, "new");
}

#[test]
fn expanded_paths_compare_by_components() {
    let mut state = TreeViewState::new();
    state.toggle_expand(&"/some/dir".to_string());
    assert!(state.is_expanded(&"/some/dir/".to_string()));
    assert!(state.is_expanded(&"/some//./dir".to_string()));
    assert!(!state.is_expanded(&"some/dir".to_string()));
    state.toggle_expand(&"/some/dir/".to_string());
    assert!(!state.is_expanded(&"/some/dir".to_string()));
    assert!(state.expanded.is_empty());
}

#[test]
fn path_set_keeps_first_spelling() {
    let mut set = PathSet::new();
    assert!(set.insert("/a/b/".to_string()));
    assert!(!set.insert("/a/b".to_string()));
    assert_eq!(set.len(), 1);
    assert_eq!(set.paths(), vec!["/a/b/".to_string()]);
    assert!(set.remove(&"/a/./b".to_string()));
    assert!(set.is_empty());
    assert!(!set.remove(&"/a/b".to_string()));
}

fn comps(p: &str) -> Vec<String> {
    path_components(&p.to_string())
}

#[test]
fn components_of_paths() {
    assert_eq!(comps("/a//b/./c/"), vec!["/", "a", "b", "c"]);
    assert_eq!(comps("./a/b"), vec![".", "a", "b"]);
    assert_eq!(comps("a/./b/."), vec!["a", "b"]);
    assert_eq!(comps("."), vec!["."]);
    assert_eq!(comps(""), Vec::<String>::new());
    assert_eq!(comps("/"), vec!["/"]);
    assert_eq!(comps("/./a"), vec!["/", "a"]);
    assert_eq!(comps("../a"), vec!["..", "a"]);
}

#[test]
fn listing_finds_dirs_by_components() {
    let mut listing = DirListing::new();
    assert!(listing.add("/r/".to_string(), vec![entry("x", "/r/x", EntryKind::Directory)]));
    assert!(listing.add("/r/x/".to_string(), vec![entry("y", "/r/x/y", EntryKind::File)]));
    let mut state = TreeViewState::new();
    state.toggle_expand(&"/r//x".to_string());
    let tree = state.build_tree_entries(&"/r".to_string(), &listing);
    let names: Vec<(&str, usize)> = tree.iter().map(|t| (t.entry.name.as_str(), t.depth)).collect();
    assert_eq!(names, vec![("x", 0), ("y", 1)]);
}

#[test]
fn expanding_inserts_and_collapsing_removes_subtree() {
    let root = "/r";
    let listing = sample_listing(root);
    let mut state = TreeViewState::new();
    let before: Vec<(String, usize)> = state
        .build_tree_entries(&root.to_string(), &listing)
        .iter()
        .map(|t| (t.entry.name.clone(), t.depth))
        .collect();
    assert_eq!(before, vec![("subdir".to_string(), 0), ("a.txt".to_string(), 0)]);
    state.toggle_expand(&"/r/subdir/".to_string());
    let opened: Vec<(String, usize)> = state
        .build_tree_entries(&root.to_string(), &listing)
        .iter()
        .map(|t| (t.entry.name.clone(), t.depth))
        .collect();
    assert_eq!(
        opened,
        vec![("subdir".to_string(), 0), ("b.txt".to_string(), 1), ("a.txt".to_string(), 0)]
    );
    state.toggle_expand(&"/r/subdir".to_string());
    let closed: Vec<(String, usize)> = state
        .build_tree_entries(&root.to_string(), &listing)
        .iter()
        .map(|t| (t.entry.name.clone(), t.depth))
        .collect();
    assert_eq!(closed, before);
}

#[test]
fn path_set_lists_spellings_in_order() {
    let mut set = PathSet::new();
    assert!(set.insert("/b/".to_string()));
    assert!(set.insert("/a".to_string()));
    assert!(!set.insert("/b".to_string()));
    assert_eq!(set.paths(), vec!["/b/".to_string(), "/a".to_string()]);
    assert!(set.remove(&"/b".to_string()));
    assert_eq!(set.paths(), vec!["/a".to_string()]);
    assert!(!set.remove(&"/c".to_string()));
    assert_eq!(set.paths(), vec!["/a".to_string()]);
}

#[test]
fn expanding_a_nested_directory_inserts_its_rows_in_place() {
    let mut listing = DirListing::new();
    assert!(listing.add(
        "/r".to_string(),
        vec![entry("x", "/r/x", EntryKind::Directory), entry("z", "/r/z", EntryKind::File)]
    ));
    assert!(listing.add(
        "/r/x".to_string(),
        vec![entry("y", "/r/x/y", EntryKind::Directory), entry("w", "/r/x/w", EntryKind::File)]
    ));
    assert!(listing.add("/r/x/y".to_string(), vec![entry("v", "/r/x/y/v", EntryKind::File)]));
    let mut state = TreeViewState::new();
    state.toggle_expand(&"/r/x".to_string());
    let rows = |s: &TreeViewState| -> Vec<(String, usize)> {
        s.build_tree_entries(&"/r".to_string(), &listing).iter().map(|t| (t.entry.name.clone(), t.depth)).collect()
    };
    let before = rows(&state);
    assert_eq!(
        before,
        vec![("x".to_string(), 0), ("y".to_string(), 1), ("w".to_string(), 1), ("z".to_string(), 0)]
    );
    state.toggle_expand(&"/r/x/y".to_string());
    let after = rows(&state);
    assert_eq!(
        after,
        vec![
            ("x".to_string(), 0),
            ("y".to_string(), 1),
            ("v".to_string(), 2),
            ("w".to_string(), 1),
            ("z".to_string(), 0)
        ]
    );
    // A directory that is not shown changes nothing when expanded.
    state.toggle_expand(&"/elsewhere".to_string());
    assert_eq!(rows(&state), after);
}
