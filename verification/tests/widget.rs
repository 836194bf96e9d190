use file_picker::event::InputMode;
use file_picker::view::{ListViewState, PathSet, TreeViewState, ViewState};
use file_picker::widget::{file_list_layout, Highlight, prefix_text, status_line, suffix_text, RowLayout, StatusStyle};
use file_picker::{Entry, EntryKind};

fn entry(name: &str, kind: EntryKind) -> Entry {
    Entry { name: name.to_string(), path: format!("/d/{}", name), kind }
}

fn sample_entries() -> Vec<Entry> {
    vec![
        entry("subdir", EntryKind::Directory),
        entry("alpha.txt", EntryKind::File),
        entry("beta.rs", EntryKind::File),
    ]
}

#[test]
fn empty_listing_lays_out_nothing() {
    let mut view = ViewState::List(ListViewState { cursor: 4, scroll_offset: 2 });
    assert!(file_list_layout(&mut view, &vec![], &PathSet::new(), 10, 80).is_none());
    assert_eq!(view.scroll_offset(), 2);
}

#[test]
fn rows_of_a_short_list() {
    let mut view = ViewState::List(ListViewState::new());
    let mut selected = PathSet::new();
    selected.insert("/d/alpha.txt/".to_string());
    let rows = file_list_layout(&mut view, &sample_entries(), &selected, 20, 80).unwrap();
    assert_eq!(rows.len(), 3);
    assert_eq!(
        rows[0],
        RowLayout {
            entry_index: 0,
            row: 0,
            is_cursor: true,
            is_selected: false,
            highlight: Highlight::Cursor,
            prefix_cells: 3,
            name_cells: 6,
            suffix_cells: 1,
            fill_cells: 70,
        }
    );
    assert!(rows[1].is_selected && !rows[1].is_cursor);
    assert_eq!(rows[1].highlight, Highlight::Selected);
    assert_eq!(rows[2].highlight, Highlight::Plain);
    assert_eq!(rows[1].fill_cells, 0);
    assert_eq!(rows[2].suffix_cells, 0);
}

#[test]
fn scroll_follows_cursor_down() {
    let mut view = ViewState::List(ListViewState { cursor: 2, scroll_offset: 0 });
    let rows = file_list_layout(&mut view, &sample_entries(), &PathSet::new(), 2, 80).unwrap();
    assert_eq!(view.scroll_offset(), 1);
    assert_eq!(rows.len(), 2);
    assert_eq!(rows[0].entry_index, 1);
    assert_eq!(rows[1].entry_index, 2);
    assert!(rows[1].is_cursor);
}

#[test]
fn scroll_follows_cursor_up() {
    let mut view = ViewState::Tree(TreeViewState { cursor: 0, scroll_offset: 2, ..TreeViewState::new() });
    let rows = file_list_layout(&mut view, &sample_entries(), &PathSet::new(), 2, 80).unwrap();
    assert_eq!(view.scroll_offset(), 0);
    assert_eq!(rows.len(), 2);
    assert!(rows[0].is_cursor);
}

#[test]
fn narrow_area_cuts_rows() {
    let mut view = ViewState::List(ListViewState::new());
    let rows = file_list_layout(&mut view, &sample_entries(), &PathSet::new(), 5, 5).unwrap();
    assert_eq!((rows[0].prefix_cells, rows[0].name_cells, rows[0].suffix_cells, rows[0].fill_cells), (3, 2, 0, 0));
    let rows = file_list_layout(&mut view, &sample_entries(), &PathSet::new(), 5, 2).unwrap();
    assert_eq!((rows[0].prefix_cells, rows[0].name_cells), (2, 0));
}

#[test]
fn marker_and_suffix_texts() {
    assert_eq!(prefix_text(true), " * ");
    assert_eq!(prefix_text(false), "   ");
    assert_eq!(suffix_text(EntryKind::Directory), "/");
    assert_eq!(suffix_text(EntryKind::Symlink), " ->");
    assert_eq!(suffix_text(EntryKind::File), "");
}

#[test]
fn status_line_in_normal_mode() {
    let view = ViewState::List(ListViewState::new());
    let (text, style) = status_line(&None, InputMode::Normal, &String::new(), 3, 1, false, &view);
    assert_eq!(text, "1 selected | hidden: off | view: list");
    assert_eq!(style, StatusStyle::StatusBar);
    let tree = view.toggle();
    let (text, _) = status_line(&None, InputMode::Normal, &String::new(), 3, 120, true, &tree);
    assert_eq!(text, "120 selected | hidden: on | view: tree");
}

#[test]
fn status_line_while_searching() {
    let view = ViewState::List(ListViewState::new());
    let (text, style) = status_line(&None, InputMode::Search, &"ab".to_string(), 10, 0, false, &view);
    assert_eq!(text, "/ ab  (10 matches)");
    assert_eq!(style, StatusStyle::SearchInput);
}

#[test]
fn status_line_error_first() {
    let view = ViewState::List(ListViewState::new());
    let err = Some("permission denied".to_string());
    let (text, style) = status_line(&err, InputMode::Search, &"ab".to_string(), 0, 0, false, &view);
    assert_eq!(text, "permission denied");
    assert_eq!(style, StatusStyle::Error);
}

#[test]
fn status_line_zero_and_large_counts() {
    let view = ViewState::List(ListViewState::new());
    let (text, _) = status_line(&None, InputMode::Normal, &String::new(), 0, 0, false, &view);
    assert_eq!(text, "0 selected | hidden: off | view: list");
    let (text, _) = status_line(&None, InputMode::Search, &String::new(), usize::MAX, 0, false, &view);
    assert_eq!(text, format!("/   ({} matches)", usize::MAX));
}

#[test]
fn cursor_highlight_wins_over_selection() {
    let mut view = ViewState::List(ListViewState { cursor: 1, scroll_offset: 0 });
    let mut selected = PathSet::new();
    selected.insert("/d/alpha.txt/".to_string());
    let rows = file_list_layout(&mut view, &sample_entries(), &selected, 20, 80).unwrap();
    assert!(rows[1].is_selected && rows[1].is_cursor);
    assert_eq!(rows[1].highlight, Highlight::Cursor);
}
