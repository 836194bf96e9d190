use file_picker::event::{
    handle_event, update_search_filter, Event, InputMode, KeyCode, KeyEvent, MouseEvent, MouseEventKind,
    PickerRequest,
};
use file_picker::view::ViewState;
use file_picker::{Entry, EntryKind, FilePickerState, PickerResult};

fn entry(name: &str, kind: EntryKind) -> Entry {
    Entry { name: name.to_string(), path: format!("/tmp/picker/{}", name), kind }
}

/// The sample directory as read: directories first, then files.
fn make_state() -> FilePickerState {
    FilePickerState::new(
        vec![
            entry("subdir", EntryKind::Directory),
            entry("alpha.txt", EntryKind::File),
            entry("beta.rs", EntryKind::File),
        ],
        false,
    )
}

fn key(code: KeyCode) -> Event {
    Event::Key(KeyEvent { code, ctrl: false })
}

fn ctrl_key(code: KeyCode) -> Event {
    Event::Key(KeyEvent { code, ctrl: true })
}

fn send(state: &mut FilePickerState, event: Event) -> PickerRequest {
    handle_event(state, event, 1_000)
}

#[test]
fn j_moves_down() {
    let mut state = make_state();
    let initial = state.view.cursor();
    send(&mut state, key(KeyCode::Char('j')));
    assert_eq!(state.view.cursor(), initial + 1);
}

#[test]
fn k_moves_up() {
    let mut state = make_state();
    send(&mut state, key(KeyCode::Char('j')));
    let after_down = state.view.cursor();
    send(&mut state, key(KeyCode::Char('k')));
    assert_eq!(state.view.cursor(), after_down - 1);
}

#[test]
fn arrow_keys_navigate() {
    let mut state = make_state();
    let initial = state.view.cursor();
    send(&mut state, key(KeyCode::Down));
    assert_eq!(state.view.cursor(), initial + 1);
    send(&mut state, key(KeyCode::Up));
    assert_eq!(state.view.cursor(), initial);
}

#[test]
fn shift_g_moves_to_bottom() {
    let mut state = make_state();
    let count = state.visible_count();
    // 'G' is sent as Shift+g
    send(&mut state, key(KeyCode::Char('G')));
    assert_eq!(state.view.cursor(), count - 1);
}

#[test]
fn space_toggles_selection() {
    let mut state = make_state();
    // Find a file entry (files come after directories)
    let file_idx = state.entries.iter().position(|e| e.kind == EntryKind::File).expect("should have a file");
    *state.view.cursor_mut() = file_idx;

    assert!(state.selected.is_empty());
    send(&mut state, key(KeyCode::Char(' ')));
    assert_eq!(state.selected.len(), 1);
    send(&mut state, key(KeyCode::Char(' ')));
    assert!(state.selected.is_empty());
}

#[test]
fn dot_toggles_hidden() {
    let visible = |name: &str| Entry { name: name.to_string(), path: format!("/d/{}", name), kind: EntryKind::File };
    let mut state = FilePickerState::new(vec![visible("visible.txt")], false);
    assert_eq!(state.visible_count(), 1);
    let request = send(&mut state, key(KeyCode::Char('.')));
    assert_eq!(request, PickerRequest::ReloadEntries);
    assert!(state.show_hidden);
    // The directory read again, now with hidden files.
    state.set_entries(vec![visible(".hidden.txt"), visible("visible.txt")]);
    assert_eq!(state.visible_count(), 2);
}

#[test]
fn esc_cancels() {
    let mut state = make_state();
    assert_eq!(state.result, PickerResult::Pending);
    send(&mut state, key(KeyCode::Esc));
    assert_eq!(state.result, PickerResult::Cancelled);
}

#[test]
fn q_cancels() {
    let mut state = make_state();
    send(&mut state, key(KeyCode::Char('q')));
    assert_eq!(state.result, PickerResult::Cancelled);
}

#[test]
fn tab_toggles_view() {
    let mut state = make_state();
    assert!(matches!(state.view, ViewState::List(_)));
    send(&mut state, key(KeyCode::Tab));
    assert!(matches!(state.view, ViewState::Tree(_)));
    send(&mut state, key(KeyCode::Tab));
    assert!(matches!(state.view, ViewState::List(_)));
}

#[test]
fn slash_enters_search_mode() {
    let mut state = make_state();
    assert_eq!(state.input.input_mode, InputMode::Normal);
    send(&mut state, key(KeyCode::Char('/')));
    assert_eq!(state.input.input_mode, InputMode::Search);
    assert!(state.input.search_query.is_empty());
}

/// Scores of subdir, alpha.txt and beta.rs against the query "a": the last two match.
fn scores_for_a() -> Vec<Option<i32>> {
    vec![None, Some(10), Some(5)]
}

#[test]
fn search_mode_typing_and_esc_clears() {
    let mut state = make_state();
    send(&mut state, key(KeyCode::Char('/')));
    let request = send(&mut state, key(KeyCode::Char('a')));
    assert_eq!(request, PickerRequest::RefreshFilter);
    update_search_filter(&mut state, &scores_for_a());
    assert_eq!(state.input.search_query, "a");
    assert!(state.input.filtered_indices.is_some());
    send(&mut state, key(KeyCode::Esc));
    assert_eq!(state.input.input_mode, InputMode::Normal);
    assert!(state.input.search_query.is_empty());
    assert!(state.input.filtered_indices.is_none());
}

#[test]
fn search_mode_enter_keeps_filter() {
    let mut state = make_state();
    send(&mut state, key(KeyCode::Char('/')));
    send(&mut state, key(KeyCode::Char('a')));
    update_search_filter(&mut state, &scores_for_a());
    let filter_before = state.input.filtered_indices.clone();
    assert!(filter_before.is_some());
    send(&mut state, key(KeyCode::Enter));
    assert_eq!(state.input.input_mode, InputMode::Normal);
    assert_eq!(state.input.filtered_indices, filter_before);
}

#[test]
fn gg_sequence_moves_to_top() {
    let mut state = make_state();
    let count = state.visible_count();
    *state.view.cursor_mut() = count - 1;
    handle_event(&mut state, key(KeyCode::Char('g')), 1_000);
    assert!(state.input.pending_key.is_some());
    handle_event(&mut state, key(KeyCode::Char('g')), 1_100);
    assert_eq!(state.view.cursor(), 0);
    assert!(state.input.pending_key.is_none());
}

#[test]
fn slow_second_g_starts_over() {
    let mut state = make_state();
    *state.view.cursor_mut() = 2;
    handle_event(&mut state, key(KeyCode::Char('g')), 1_000);
    handle_event(&mut state, key(KeyCode::Char('g')), 1_500);
    assert_eq!(state.view.cursor(), 2);
    assert_eq!(state.input.pending_key, Some(('g', 1_500)));
}

#[test]
fn other_key_clears_pending_g() {
    let mut state = make_state();
    handle_event(&mut state, key(KeyCode::Char('g')), 1_000);
    handle_event(&mut state, key(KeyCode::Char('j')), 1_010);
    assert_eq!(state.view.cursor(), 1);
    assert!(state.input.pending_key.is_none());
}

#[test]
fn closed_picker_ignores_events() {
    let mut state = make_state();
    send(&mut state, key(KeyCode::Enter));
    assert_eq!(state.result, PickerResult::Confirmed);
    assert_eq!(send(&mut state, key(KeyCode::Char('j'))), PickerRequest::Nothing);
    assert_eq!(state.view.cursor(), 0);
    send(&mut state, key(KeyCode::Esc));
    assert_eq!(state.result, PickerResult::Confirmed);
}

#[test]
fn cursor_stops_at_the_ends() {
    let mut state = make_state();
    send(&mut state, key(KeyCode::Char('k')));
    assert_eq!(state.view.cursor(), 0);
    for _ in 0..5 {
        send(&mut state, key(KeyCode::Char('j')));
    }
    assert_eq!(state.view.cursor(), 2);
}

#[test]
fn half_pages() {
    let entries: Vec<Entry> = (0..50).map(|i| entry(&format!("f{}", i), EntryKind::File)).collect();
    let mut state = FilePickerState::new(entries, false);
    send(&mut state, ctrl_key(KeyCode::Char('d')));
    assert_eq!(state.view.cursor(), 20);
    send(&mut state, ctrl_key(KeyCode::Char('d')));
    send(&mut state, ctrl_key(KeyCode::Char('d')));
    assert_eq!(state.view.cursor(), 49);
    send(&mut state, ctrl_key(KeyCode::Char('u')));
    assert_eq!(state.view.cursor(), 29);
    send(&mut state, ctrl_key(KeyCode::Char('u')));
    send(&mut state, ctrl_key(KeyCode::Char('u')));
    assert_eq!(state.view.cursor(), 0);
    send(&mut state, key(KeyCode::Char('d')));
    assert_eq!(state.view.cursor(), 0);
}

#[test]
fn control_f_opens_search() {
    let mut state = make_state();
    send(&mut state, ctrl_key(KeyCode::Char('f')));
    assert_eq!(state.input.input_mode, InputMode::Search);
}

#[test]
fn navigation_requests() {
    let mut state = make_state();
    assert_eq!(send(&mut state, key(KeyCode::Char('l'))), PickerRequest::EnterDirectory);
    assert_eq!(send(&mut state, key(KeyCode::Right)), PickerRequest::EnterDirectory);
    assert_eq!(send(&mut state, key(KeyCode::Char('h'))), PickerRequest::GoParent);
    assert_eq!(send(&mut state, key(KeyCode::Backspace)), PickerRequest::GoParent);
    assert_eq!(send(&mut state, key(KeyCode::Char('~'))), PickerRequest::GoHome);
    assert_eq!(send(&mut state, key(KeyCode::Char('z'))), PickerRequest::Nothing);
    assert_eq!(state.result, PickerResult::Pending);
}

#[test]
fn search_typing_and_backspace() {
    let mut state = make_state();
    send(&mut state, key(KeyCode::Char('/')));
    send(&mut state, key(KeyCode::Char('x')));
    send(&mut state, key(KeyCode::Char('y')));
    assert_eq!(state.input.search_query, "xy");
    send(&mut state, key(KeyCode::Char('j')));
    assert_eq!(state.input.search_query, "xy");
    assert_eq!(state.view.cursor(), 1);
    assert_eq!(send(&mut state, key(KeyCode::Backspace)), PickerRequest::RefreshFilter);
    assert_eq!(state.input.search_query, "x");
    assert_eq!(send(&mut state, ctrl_key(KeyCode::Char('x'))), PickerRequest::Nothing);
    assert_eq!(state.input.search_query, "x");
}

#[test]
fn esc_in_search_clamps_cursor() {
    let mut state = make_state();
    send(&mut state, key(KeyCode::Char('/')));
    send(&mut state, key(KeyCode::Char('a')));
    update_search_filter(&mut state, &vec![None, None, Some(1)]);
    assert_eq!(state.visible_count(), 1);
    *state.view.cursor_mut() = 7;
    send(&mut state, key(KeyCode::Esc));
    assert_eq!(state.visible_count(), 3);
    assert_eq!(state.view.cursor(), 2);
}

#[test]
fn backspace_on_empty_query() {
    let mut state = make_state();
    send(&mut state, key(KeyCode::Char('/')));
    assert_eq!(send(&mut state, key(KeyCode::Backspace)), PickerRequest::RefreshFilter);
    assert!(state.input.search_query.is_empty());
    update_search_filter(&mut state, &vec![Some(1), Some(2), None]);
    assert!(state.input.filtered_indices.is_none());
}

#[test]
fn mouse_moves_cursor() {
    let mut state = make_state();
    let click = |row| Event::Mouse(MouseEvent { kind: MouseEventKind::LeftDown, row });
    send(&mut state, click(3));
    assert_eq!(state.view.cursor(), 1);
    send(&mut state, click(5));
    assert_eq!(state.view.cursor(), 1);
    send(&mut state, click(1));
    assert_eq!(state.view.cursor(), 1);
    send(&mut state, Event::Mouse(MouseEvent { kind: MouseEventKind::ScrollDown, row: 0 }));
    assert_eq!(state.view.cursor(), 2);
    send(&mut state, Event::Mouse(MouseEvent { kind: MouseEventKind::ScrollUp, row: 0 }));
    assert_eq!(state.view.cursor(), 1);
}

#[test]
fn filter_update_ranks_and_resets_view() {
    let mut state = FilePickerState::new(
        vec![
            entry("a", EntryKind::File),
            entry("b", EntryKind::File),
            entry("c", EntryKind::File),
            entry("d", EntryKind::File),
        ],
        false,
    );
    send(&mut state, key(KeyCode::Char('/')));
    send(&mut state, key(KeyCode::Char('a')));
    *state.view.cursor_mut() = 2;
    *state.view.scroll_offset_mut() = 1;
    update_search_filter(&mut state, &vec![Some(3), None, Some(7), Some(3)]);
    assert_eq!(state.input.filtered_indices, Some(vec![2, 0, 3]));
    assert_eq!(state.view.cursor(), 0);
    assert_eq!(state.view.scroll_offset(), 0);
    let names: Vec<String> = state.visible_entries().into_iter().map(|e| e.name).collect();
    assert_eq!(names, vec!["c", "a", "d"]);
}

#[test]
fn selection_follows_the_filter() {
    let mut state = make_state();
    send(&mut state, key(KeyCode::Char('/')));
    send(&mut state, key(KeyCode::Char('b')));
    update_search_filter(&mut state, &vec![None, None, Some(4)]);
    send(&mut state, key(KeyCode::Enter));
    send(&mut state, key(KeyCode::Char(' ')));
    assert!(state.selected.contains(&"/tmp/picker/beta.rs".to_string()));
    assert!(state.selected.contains(&"/tmp/picker//beta.rs".to_string()));
}

#[test]
fn dir_to_enter_is_the_directory_under_the_cursor() {
    let mut state = make_state();
    assert_eq!(state.dir_to_enter(), Some("/tmp/picker/subdir".to_string()));
    send(&mut state, key(KeyCode::Char('j')));
    assert_eq!(state.dir_to_enter(), None);
    let mut empty = FilePickerState::new(vec![], false);
    assert_eq!(empty.dir_to_enter(), None);
    assert_eq!(send(&mut empty, key(KeyCode::Char('l'))), PickerRequest::EnterDirectory);
}
