use vstd::prelude::*;

use crate::search::{is_ranking, rank_matches};
use crate::state::{
    at_cursor, cursor_clamped, cursor_down, cursor_page_down, cursor_page_up, cursor_to_bottom, cursor_up,
    selection_toggled, visible_count, FilePickerState, PickerResult, PickerView,
};
use crate::path::components;
use crate::state::visible_entry;
use crate::view::tree::toggled_path;
use crate::view::{lemma_view_model, ViewModel, ViewState};

verus! {

/// Rows moved by the half-page motions.
pub const HALF_PAGE_ROWS: usize = 20;

/// How long, in milliseconds, a first `g` waits for the second one of `gg`.
pub const GG_TIMEOUT_MS: u64 = 500;

/// Terminal rows above the first entry row, where a click selects no entry.
pub const ROWS_ABOVE_LIST: u16 = 2;

/// A key as the picker tells keys apart.
#[derive(Debug, Clone, Copy, PartialEq, Eq, Structural)]
pub enum KeyCode {
    Char(char),
    Up,
    Down,
    Left,
    Right,
    Backspace,
    Enter,
    Esc,
    Tab,
    Other,
}

/// A key press: the key, and whether Control was held.
#[derive(Debug, Clone, Copy, PartialEq, Eq, Structural)]
pub struct KeyEvent {
    pub code: KeyCode,
    pub ctrl: bool,
}

/// What the mouse did.
#[derive(Debug, Clone, Copy, PartialEq, Eq, Structural)]
pub enum MouseEventKind {
    LeftDown,
    ScrollDown,
    ScrollUp,
    Other,
}

/// A mouse event and the terminal row it happened on.
#[derive(Debug, Clone, Copy, PartialEq, Eq, Structural)]
pub struct MouseEvent {
    pub kind: MouseEventKind,
    pub row: u16,
}

/// A terminal event as the picker tells events apart.
#[derive(Debug, Clone, Copy, PartialEq, Eq, Structural)]
pub enum Event {
    Key(KeyEvent),
    Mouse(MouseEvent),
    Other,
}

/// Whether keys move through the entries or type a search query.
#[derive(Debug, Clone, Copy, PartialEq, Eq, Structural)]
pub enum InputMode {
    Normal,
    Search,
}

/// What a key or a mouse event asks of the picker.
#[derive(Debug, Clone, Copy, PartialEq, Eq, Structural)]
pub enum PickerAction {
    Nothing,
    MoveCursorDown,
    MoveCursorUp,
    EnterDirectory,
    GoParent,
    MoveToTop,
    MoveToBottom,
    HalfPageDown(usize),
    HalfPageUp(usize),
    ToggleSelect,
    Confirm,
    Cancel,
    ToggleView,
    ToggleHidden,
    GoHome,
    /// Bring the cursor back among the visible entries.
    ClampCursor,
    /// Score the entries against the new query.
    RefreshFilter,
}

/// What is left to do after an event, which needs the file system or the matcher.
#[derive(Debug, Clone, Copy, PartialEq, Eq, Structural)]
pub enum PickerRequest {
    Nothing,
    /// Open the directory under the cursor.
    EnterDirectory,
    /// Go to the parent directory.
    GoParent,
    /// Go to the home directory.
    GoHome,
    /// Read the entries again (whether hidden files are shown changed) and give them to `set_entries`.
    ReloadEntries,
    /// Score the entries against the new query and give the scores to `update_search_filter`.
    RefreshFilter,
}

/// The part of the picker's state that events change directly.
#[derive(Debug)]
pub struct InputState {
    pub input_mode: InputMode,
    /// A first `g` and when it was pressed, in milliseconds.
    pub pending_key: Option<(char, u64)>,
    pub search_query: String,
    /// While a search filter is active, the indices of the entries it lets through, best match first.
    pub filtered_indices: Option<Vec<usize>>,
}

/// The input state as values.
#[verifier::ext_equal]
pub struct InputView {
    pub mode: InputMode,
    pub pending_key: Option<(char, u64)>,
    pub query: Seq<char>,
    pub filter: Option<Seq<usize>>,
}

impl View for InputState {
    type V = InputView;

    open spec fn view(&self) -> InputView {
        InputView {
            mode: self.input_mode,
            pending_key: self.pending_key,
            query: self.search_query@,
            filter: match self.filtered_indices {
                Some(v) => Some(v@),
                None => None,
            },
        }
    }
}

impl InputState {
    /// Normal mode, nothing pending, an empty query and no filter.
    pub fn new() -> (s: Self)
        ensures
            s@ == (InputView {
                mode: InputMode::Normal,
                pending_key: None,
                query: Seq::empty(),
                filter: None,
            }),
    {
        InputState {
            input_mode: InputMode::Normal,
            pending_key: None,
            search_query: String::new(),
            filtered_indices: None,
        }
    }
}

/// Milliseconds from `then` to `now`; zero if `now` is not later.
pub open spec fn elapsed_ms(then: u64, now: u64) -> int {
    if now >= then {
        now - then
    } else {
        0
    }
}

/// Whether `code` completes a `gg` begun by `pending` in time.
pub open spec fn completes_gg(pending: Option<(char, u64)>, now: u64, code: KeyCode) -> bool {
    match pending {
        Some((c, t)) => c == 'g' && elapsed_ms(t, now) < GG_TIMEOUT_MS && code == KeyCode::Char('g'),
        None => false,
    }
}

/// Whether a key in normal mode opens the search prompt: `/`, or Control with `f`.
pub open spec fn opens_search(k: KeyEvent) -> bool {
    k.code == KeyCode::Char('/') || (k.code == KeyCode::Char('f') && k.ctrl)
}

/// The action that a key asks for in normal mode, once no `gg` is completed.
pub open spec fn normal_key_action(k: KeyEvent) -> PickerAction {
    match k.code {
        KeyCode::Down => PickerAction::MoveCursorDown,
        KeyCode::Up => PickerAction::MoveCursorUp,
        KeyCode::Right => PickerAction::EnterDirectory,
        KeyCode::Left | KeyCode::Backspace => PickerAction::GoParent,
        KeyCode::Enter => PickerAction::Confirm,
        KeyCode::Esc => PickerAction::Cancel,
        KeyCode::Tab => PickerAction::ToggleView,
        KeyCode::Char(c) => {
            if c == 'j' {
                PickerAction::MoveCursorDown
            } else if c == 'k' {
                PickerAction::MoveCursorUp
            } else if c == 'l' {
                PickerAction::EnterDirectory
            } else if c == 'h' {
                PickerAction::GoParent
            } else if c == 'G' {
                PickerAction::MoveToBottom
            } else if c == 'd' && k.ctrl {
                PickerAction::HalfPageDown(HALF_PAGE_ROWS)
            } else if c == 'u' && k.ctrl {
                PickerAction::HalfPageUp(HALF_PAGE_ROWS)
            } else if c == ' ' {
                PickerAction::ToggleSelect
            } else if c == 'q' {
                PickerAction::Cancel
            } else if c == '.' {
                PickerAction::ToggleHidden
            } else if c == '~' {
                PickerAction::GoHome
            } else {
                PickerAction::Nothing
            }
        },
        KeyCode::Other => PickerAction::Nothing,
    }
}

/// The input state after a key in normal mode.
pub open spec fn normal_key_input(s: InputView, k: KeyEvent, now: u64) -> InputView {
    if completes_gg(s.pending_key, now, k.code) {
        InputView { pending_key: None, ..s }
    } else if k.code == KeyCode::Char('g') {
        InputView { pending_key: Some(('g', now)), ..s }
    } else if opens_search(k) {
        InputView { mode: InputMode::Search, pending_key: None, query: Seq::empty(), ..s }
    } else {
        InputView { pending_key: None, ..s }
    }
}

/// The action after a key in normal mode.
pub open spec fn normal_key_result(s: InputView, k: KeyEvent, now: u64) -> PickerAction {
    if completes_gg(s.pending_key, now, k.code) {
        PickerAction::MoveToTop
    } else {
        normal_key_action(k)
    }
}

/// Whether a key types into the query in search mode.
pub open spec fn types_into_query(k: KeyEvent) -> bool {
    match k.code {
        KeyCode::Char(c) => c != 'j' && c != 'k' && !k.ctrl,
        _ => false,
    }
}

/// The input state after a key in search mode.
pub open spec fn search_key_input(s: InputView, k: KeyEvent) -> InputView {
    match k.code {
        KeyCode::Esc => InputView { mode: InputMode::Normal, query: Seq::empty(), filter: None, ..s },
        KeyCode::Enter => InputView { mode: InputMode::Normal, ..s },
        KeyCode::Backspace => InputView {
            query: if s.query.len() > 0 {
                s.query.drop_last()
            } else {
                s.query
            },
            ..s
        },
        KeyCode::Char(c) => if types_into_query(k) {
            InputView { query: s.query.push(c), ..s }
        } else {
            s
        },
        _ => s,
    }
}

/// The action after a key in search mode.
pub open spec fn search_key_result(k: KeyEvent) -> PickerAction {
    match k.code {
        KeyCode::Esc => PickerAction::ClampCursor,
        KeyCode::Backspace => PickerAction::RefreshFilter,
        KeyCode::Down => PickerAction::MoveCursorDown,
        KeyCode::Up => PickerAction::MoveCursorUp,
        KeyCode::Char(c) => if c == 'j' {
            PickerAction::MoveCursorDown
        } else if c == 'k' {
            PickerAction::MoveCursorUp
        } else if !k.ctrl {
            PickerAction::RefreshFilter
        } else {
            PickerAction::Nothing
        },
        _ => PickerAction::Nothing,
    }
}

/// The entry under a left click on terminal row `row`, if any of the `count` visible ones.
pub open spec fn clicked_entry(row: u16, count: usize) -> Option<usize> {
    if row >= ROWS_ABOVE_LIST && row - ROWS_ABOVE_LIST < count {
        Some((row - ROWS_ABOVE_LIST) as usize)
    } else {
        None
    }
}

/// The input state after an event, `finished` telling whether the picker is done.
pub open spec fn input_after(s: InputView, e: Event, finished: bool, now: u64) -> InputView {
    if finished {
        s
    } else {
        match e {
            Event::Key(k) => match s.mode {
                InputMode::Normal => normal_key_input(s, k, now),
                InputMode::Search => search_key_input(s, k),
            },
            _ => s,
        }
    }
}

/// The action after an event.
pub open spec fn action_after(s: InputView, e: Event, finished: bool, now: u64) -> PickerAction {
    if finished {
        PickerAction::Nothing
    } else {
        match e {
            Event::Key(k) => match s.mode {
                InputMode::Normal => normal_key_result(s, k, now),
                InputMode::Search => search_key_result(k),
            },
            Event::Mouse(m) => match m.kind {
                MouseEventKind::ScrollDown => PickerAction::MoveCursorDown,
                MouseEventKind::ScrollUp => PickerAction::MoveCursorUp,
                _ => PickerAction::Nothing,
            },
            Event::Other => PickerAction::Nothing,
        }
    }
}

/// The picker state after the picker carries out what an event asked for, and what is
/// left for the file system or the matcher.
pub open spec fn carried_out(s: PickerView, a: PickerAction) -> (PickerView, PickerRequest) {
    match a {
        PickerAction::Nothing => (s, PickerRequest::Nothing),
        PickerAction::MoveCursorDown => (cursor_down(s), PickerRequest::Nothing),
        PickerAction::MoveCursorUp => (cursor_up(s), PickerRequest::Nothing),
        PickerAction::EnterDirectory => (s, PickerRequest::EnterDirectory),
        PickerAction::GoParent => (s, PickerRequest::GoParent),
        PickerAction::MoveToTop => (at_cursor(s, 0), PickerRequest::Nothing),
        PickerAction::MoveToBottom => (cursor_to_bottom(s), PickerRequest::Nothing),
        PickerAction::HalfPageDown(n) => (cursor_page_down(s, n), PickerRequest::Nothing),
        PickerAction::HalfPageUp(n) => (cursor_page_up(s, n), PickerRequest::Nothing),
        PickerAction::ToggleSelect => (selection_toggled(s), PickerRequest::Nothing),
        PickerAction::Confirm => (PickerView { result: PickerResult::Confirmed, ..s }, PickerRequest::Nothing),
        PickerAction::Cancel => (PickerView { result: PickerResult::Cancelled, ..s }, PickerRequest::Nothing),
        PickerAction::ToggleView => (PickerView { view: s.view.toggled(), ..s }, PickerRequest::Nothing),
        PickerAction::ToggleHidden => (PickerView { show_hidden: !s.show_hidden, ..s }, PickerRequest::ReloadEntries),
        PickerAction::GoHome => (s, PickerRequest::GoHome),
        PickerAction::ClampCursor => (cursor_clamped(s), PickerRequest::Nothing),
        PickerAction::RefreshFilter => (s, PickerRequest::RefreshFilter),
    }
}

/// The view after a mouse event: a left click on a shown entry puts the cursor on it.
pub open spec fn clicked_view(v: ViewModel, e: Event, count: nat) -> ViewModel {
    match e {
        Event::Mouse(m) => if m.kind == MouseEventKind::LeftDown && m.row >= ROWS_ABOVE_LIST && m.row
            - ROWS_ABOVE_LIST < count {
            v.set_cursor((m.row - ROWS_ABOVE_LIST) as usize)
        } else {
            v
        },
        _ => v,
    }
}

/// The picker state after an event at time `now`, and what is left to do. Once the picker
/// is closed, events change nothing.
pub open spec fn picker_step(s: PickerView, e: Event, now: u64) -> (PickerView, PickerRequest) {
    if s.result != PickerResult::Pending {
        (s, PickerRequest::Nothing)
    } else {
        let s1 = PickerView {
            input: input_after(s.input, e, false, now),
            view: clicked_view(s.view, e, visible_count(s)),
            ..s
        };
        carried_out(s1, action_after(s.input, e, false, now))
    }
}

/// Handles one terminal event at time `now_ms` (milliseconds). Does nothing once the
/// picker is closed. Keys and clicks move the cursor, select, switch the view, type the
/// query and close the picker here; what needs the file system or the matcher is returned.
pub fn handle_event(state: &mut FilePickerState, event: Event, now_ms: u64) -> (r: PickerRequest)
    ensures
        (final(state)@, r) == picker_step(old(state)@, event, now_ms),
{
    if state.result != PickerResult::Pending {
        return PickerRequest::Nothing;
    }
    let count = state.visible_count();
    let ghost v0 = state.view;
    let action = match event {
        Event::Key(key) => handle_key(&mut state.input, key, now_ms),
        Event::Mouse(mouse) => handle_mouse(&mut state.view, mouse, count),
        Event::Other => PickerAction::Nothing,
    };
    proof {
        if let Event::Mouse(m) = event {
            lemma_view_model(v0, v0, (m.row - ROWS_ABOVE_LIST) as usize);
        }
    }
    assert(state@ =~= (PickerView {
        input: input_after(old(state)@.input, event, false, now_ms),
        view: clicked_view(old(state)@.view, event, visible_count(old(state)@)),
        ..old(state)@
    }));
    carry_out(state, action)
}

fn carry_out(state: &mut FilePickerState, action: PickerAction) -> (r: PickerRequest)
    ensures
        (final(state)@, r) == carried_out(old(state)@, action),
{
    match action {
        PickerAction::Nothing => PickerRequest::Nothing,
        PickerAction::MoveCursorDown => {
            state.move_cursor_down();
            PickerRequest::Nothing
        },
        PickerAction::MoveCursorUp => {
            state.move_cursor_up();
            PickerRequest::Nothing
        },
        PickerAction::EnterDirectory => PickerRequest::EnterDirectory,
        PickerAction::GoParent => PickerRequest::GoParent,
        PickerAction::MoveToTop => {
            state.move_to_top();
            PickerRequest::Nothing
        },
        PickerAction::MoveToBottom => {
            state.move_to_bottom();
            PickerRequest::Nothing
        },
        PickerAction::HalfPageDown(n) => {
            state.move_half_page_down(n);
            PickerRequest::Nothing
        },
        PickerAction::HalfPageUp(n) => {
            state.move_half_page_up(n);
            PickerRequest::Nothing
        },
        PickerAction::ToggleSelect => {
            state.toggle_select();
            PickerRequest::Nothing
        },
        PickerAction::Confirm => {
            state.confirm();
            PickerRequest::Nothing
        },
        PickerAction::Cancel => {
            state.cancel();
            PickerRequest::Nothing
        },
        PickerAction::ToggleView => {
            state.toggle_view();
            PickerRequest::Nothing
        },
        PickerAction::ToggleHidden => {
            state.toggle_hidden();
            PickerRequest::ReloadEntries
        },
        PickerAction::GoHome => PickerRequest::GoHome,
        PickerAction::ClampCursor => {
            state.clamp_cursor_pub();
            PickerRequest::Nothing
        },
        PickerAction::RefreshFilter => PickerRequest::RefreshFilter,
    }
}

fn handle_key(input: &mut InputState, key: KeyEvent, now_ms: u64) -> (action: PickerAction)
    ensures
        final(input)@ == input_after(old(input)@, Event::Key(key), false, now_ms),
        action == action_after(old(input)@, Event::Key(key), false, now_ms),
{
    match input.input_mode {
        InputMode::Normal => handle_normal_key(input, key, now_ms),
        InputMode::Search => handle_search_key(input, key),
    }
}

fn handle_normal_key(input: &mut InputState, key: KeyEvent, now_ms: u64) -> (action: PickerAction)
    requires
        old(input).input_mode == InputMode::Normal,
    ensures
        final(input)@ == normal_key_input(old(input)@, key, now_ms),
        action == normal_key_result(old(input)@, key, now_ms),
{
    let pending = input.pending_key;
    input.pending_key = None;
    if let Some((pending_char, pending_time)) = pending {
        let elapsed = if now_ms >= pending_time {
            now_ms - pending_time
        } else {
            0
        };
        if pending_char == 'g' && elapsed < GG_TIMEOUT_MS && key.code == KeyCode::Char('g') {
            return PickerAction::MoveToTop;
        }
    }
    match key.code {
        KeyCode::Down => PickerAction::MoveCursorDown,
        KeyCode::Up => PickerAction::MoveCursorUp,
        KeyCode::Right => PickerAction::EnterDirectory,
        KeyCode::Left | KeyCode::Backspace => PickerAction::GoParent,
        KeyCode::Enter => PickerAction::Confirm,
        KeyCode::Esc => PickerAction::Cancel,
        KeyCode::Tab => PickerAction::ToggleView,
        KeyCode::Other => PickerAction::Nothing,
        KeyCode::Char(c) => {
            if c == 'j' {
                PickerAction::MoveCursorDown
            } else if c == 'k' {
                PickerAction::MoveCursorUp
            } else if c == 'l' {
                PickerAction::EnterDirectory
            } else if c == 'h' {
                PickerAction::GoParent
            } else if c == 'G' {
                PickerAction::MoveToBottom
            } else if c == 'g' {
                input.pending_key = Some(('g', now_ms));
                PickerAction::Nothing
            } else if c == 'd' && key.ctrl {
                PickerAction::HalfPageDown(HALF_PAGE_ROWS)
            } else if c == 'u' && key.ctrl {
                PickerAction::HalfPageUp(HALF_PAGE_ROWS)
            } else if c == ' ' {
                PickerAction::ToggleSelect
            } else if c == 'q' {
                PickerAction::Cancel
            } else if c == '.' {
                PickerAction::ToggleHidden
            } else if c == '/' || (c == 'f' && key.ctrl) {
                input.input_mode = InputMode::Search;
                input.search_query = String::new();
                PickerAction::Nothing
            } else if c == '~' {
                PickerAction::GoHome
            } else {
                PickerAction::Nothing
            }
        },
    }
}

fn handle_search_key(input: &mut InputState, key: KeyEvent) -> (action: PickerAction)
    requires
        old(input).input_mode == InputMode::Search,
    ensures
        final(input)@ == search_key_input(old(input)@, key),
        action == search_key_result(key),
{
    match key.code {
        KeyCode::Esc => {
            input.input_mode = InputMode::Normal;
            input.search_query = String::new();
            input.filtered_indices = None;
            PickerAction::ClampCursor
        },
        KeyCode::Enter => {
            input.input_mode = InputMode::Normal;
            PickerAction::Nothing
        },
        KeyCode::Backspace => {
            input.search_query.pop();
            PickerAction::RefreshFilter
        },
        KeyCode::Down => PickerAction::MoveCursorDown,
        KeyCode::Up => PickerAction::MoveCursorUp,
        KeyCode::Char(c) => {
            if c == 'j' {
                PickerAction::MoveCursorDown
            } else if c == 'k' {
                PickerAction::MoveCursorUp
            } else if !key.ctrl {
                input.search_query.push(c);
                PickerAction::RefreshFilter
            } else {
                PickerAction::Nothing
            }
        },
        KeyCode::Left | KeyCode::Right | KeyCode::Tab | KeyCode::Other => PickerAction::Nothing,
    }
}

fn handle_mouse(view: &mut ViewState, mouse: MouseEvent, visible_count: usize) -> (action: PickerAction)
    ensures
        *final(view) == if mouse.kind == MouseEventKind::LeftDown && mouse.row >= ROWS_ABOVE_LIST
            && mouse.row - ROWS_ABOVE_LIST < visible_count {
            old(view).with_cursor((mouse.row - ROWS_ABOVE_LIST) as usize)
        } else {
            *old(view)
        },
        action == match mouse.kind {
            MouseEventKind::ScrollDown => PickerAction::MoveCursorDown,
            MouseEventKind::ScrollUp => PickerAction::MoveCursorUp,
            _ => PickerAction::Nothing,
        },
{
    match mouse.kind {
        MouseEventKind::LeftDown => {
            let row = mouse.row;
            if row >= ROWS_ABOVE_LIST {
                let entry_idx = (row - ROWS_ABOVE_LIST) as usize;
                if entry_idx < visible_count {
                    *view.cursor_mut() = entry_idx;
                }
            }
            PickerAction::Nothing
        },
        MouseEventKind::ScrollDown => PickerAction::MoveCursorDown,
        MouseEventKind::ScrollUp => PickerAction::MoveCursorUp,
        MouseEventKind::Other => PickerAction::Nothing,
    }
}

/// Applies the scores of the entries against the current query (`scores[i]` that of
/// `entries[i]`, `None` for no match): with an empty query the filter is dropped; otherwise
/// the filter keeps the entries that scored, the highest score first and equal scores in
/// entry order. The cursor and the scroll offset go back to the top.
pub fn update_search_filter(state: &mut FilePickerState, scores: &Vec<Option<i32>>)
    ensures
        final(state)@.entries == old(state)@.entries,
        final(state)@.selected == old(state)@.selected,
        final(state)@.show_hidden == old(state)@.show_hidden,
        final(state)@.result == old(state)@.result,
        final(state)@.input.mode == old(state)@.input.mode,
        final(state)@.input.pending_key == old(state)@.input.pending_key,
        final(state)@.input.query == old(state)@.input.query,
        old(state)@.input.query.len() == 0 ==> final(state)@.input.filter is None,
        old(state)@.input.query.len() > 0 ==> (final(state)@.input.filter matches Some(f) && is_ranking(scores@, f)),
        final(state)@.view == old(state)@.view.set_cursor(0).set_scroll(0),
{
    if state.input.search_query.as_str().is_empty() {
        state.input.filtered_indices = None;
    } else {
        let indices = rank_matches(scores);
        state.input.filtered_indices = Some(indices);
    }
    let ghost v0 = state.view;
    *state.view.cursor_mut() = 0;
    let ghost v1 = state.view;
    *state.view.scroll_offset_mut() = 0;
    proof {
        lemma_view_model(v0, v0, 0);
        lemma_view_model(v1, v1, 0);
    }
}

/// Once the picker is closed, events change nothing and ask for nothing.
pub proof fn lemma_closed_is_inert(s: PickerView, e: Event, now: u64)
    requires
        s.result != PickerResult::Pending,
    ensures
        picker_step(s, e, now) == (s, PickerRequest::Nothing),
{
}

/// The state with no key pending.
pub open spec fn nothing_pending(s: PickerView) -> PickerView {
    PickerView { input: InputView { pending_key: None, ..s.input }, ..s }
}

/// In normal mode, unless the key completes a `gg`: Left, `h` and Backspace ask for the
/// parent directory; Right and `l` ask to enter the directory under the cursor; `~` asks
/// for the home directory. Each leaves the state as it was, but for the pending key, which
/// is dropped.
pub proof fn lemma_keys_that_ask(s: PickerView, k: KeyEvent, now: u64)
    requires
        s.result == PickerResult::Pending,
        s.input.mode == InputMode::Normal,
        !completes_gg(s.input.pending_key, now, k.code),
    ensures
        k.code == KeyCode::Left || k.code == KeyCode::Char('h') || k.code == KeyCode::Backspace
            ==> picker_step(s, Event::Key(k), now) == (nothing_pending(s), PickerRequest::GoParent),
        k.code == KeyCode::Right || k.code == KeyCode::Char('l')
            ==> picker_step(s, Event::Key(k), now) == (nothing_pending(s), PickerRequest::EnterDirectory),
        k.code == KeyCode::Char('~') ==> picker_step(s, Event::Key(k), now) == (nothing_pending(s), PickerRequest::GoHome),
{
    let s1 = PickerView {
        input: input_after(s.input, Event::Key(k), false, now),
        view: clicked_view(s.view, Event::Key(k), visible_count(s)),
        ..s
    };
    if k.code != KeyCode::Char('g') && !opens_search(k) {
        assert(s1 =~= nothing_pending(s));
    }
}

/// In normal mode, unless the key completes a `gg`, the keys that move the cursor, over
/// `n` entries shown: Down and `j` one entry down unless on the last; Up and `k` one up
/// unless on the first; `G` onto the last; Control-`d` twenty down but not past the last;
/// Control-`u` twenty up but not past the first. Nothing else changes but the pending key,
/// which is dropped, and nothing is asked.
pub proof fn lemma_keys_that_move(s: PickerView, k: KeyEvent, now: u64)
    requires
        s.result == PickerResult::Pending,
        s.input.mode == InputMode::Normal,
        !completes_gg(s.input.pending_key, now, k.code),
        visible_count(s) <= usize::MAX,
    ensures
        ({
            let (t, r) = picker_step(s, Event::Key(k), now);
            let c = s.view.cursor() as int;
            let n = visible_count(s) as int;
            let moved_to = |x: int| t == PickerView { view: s.view.set_cursor(x as usize), ..nothing_pending(s) }
                && r == PickerRequest::Nothing;
            &&& k.code == KeyCode::Down || k.code == KeyCode::Char('j') ==> moved_to(
                if c + 1 < n {
                    c + 1
                } else {
                    c
                },
            )
            &&& k.code == KeyCode::Up || k.code == KeyCode::Char('k') ==> moved_to(
                if c > 0 {
                    c - 1
                } else {
                    c
                },
            )
            &&& k.code == KeyCode::Char('G') && n > 0 ==> moved_to(n - 1)
            &&& k.code == KeyCode::Char('d') && k.ctrl && n > 0 ==> moved_to(
                if c + 20 < n - 1 {
                    c + 20
                } else {
                    n - 1
                },
            )
            &&& k.code == KeyCode::Char('u') && k.ctrl ==> moved_to(
                if c > 20 {
                    c - 20
                } else {
                    0
                },
            )
        }),
{
    let s1 = PickerView {
        input: input_after(s.input, Event::Key(k), false, now),
        view: clicked_view(s.view, Event::Key(k), visible_count(s)),
        ..s
    };
    if k.code != KeyCode::Char('g') && !opens_search(k) {
        assert(s1 =~= nothing_pending(s));
        assert(visible_count(s1) == visible_count(s));
        assert(s1.view == s.view);
    }
}

/// In normal mode, unless the key completes a `gg`: Space selects the entry under the
/// cursor if it was not selected and unselects it if it was; Enter confirms and Escape and
/// `q` cancel; Tab switches between the list and the tree view, the new one at the top and,
/// for a tree, with nothing expanded; `.` flips whether hidden files are shown and asks for
/// the entries again; `/` and Control-`f` open the search prompt with an empty query; `g`
/// leaves a `g` pending, timed `now`. Nothing else changes.
pub proof fn lemma_keys_that_change(s: PickerView, k: KeyEvent, now: u64)
    requires
        s.result == PickerResult::Pending,
        s.input.mode == InputMode::Normal,
        !completes_gg(s.input.pending_key, now, k.code),
    ensures
        ({
            let (t, r) = picker_step(s, Event::Key(k), now);
            let s0 = nothing_pending(s);
            &&& k.code == KeyCode::Char(' ') ==> r == PickerRequest::Nothing && t == match visible_entry(
                s,
                s.view.cursor() as int,
            ) {
                Some(e) => PickerView { selected: toggled_path(s.selected, components(e.path@)), ..s0 },
                None => s0,
            }
            &&& k.code == KeyCode::Enter ==> (t, r) == (PickerView { result: PickerResult::Confirmed, ..s0 }, PickerRequest::Nothing)
            &&& k.code == KeyCode::Esc || k.code == KeyCode::Char('q') ==> (t, r) == (PickerView {
                result: PickerResult::Cancelled,
                ..s0
            }, PickerRequest::Nothing)
            &&& k.code == KeyCode::Tab ==> r == PickerRequest::Nothing && t == PickerView {
                view: match s.view {
                    ViewModel::List { .. } => ViewModel::Tree { cursor: 0, scroll: 0, expanded: Set::empty() },
                    ViewModel::Tree { .. } => ViewModel::List { cursor: 0, scroll: 0 },
                },
                ..s0
            }
            &&& k.code == KeyCode::Char('.') ==> (t, r) == (PickerView { show_hidden: !s.show_hidden, ..s0 }, PickerRequest::ReloadEntries)
            &&& k.code == KeyCode::Char('/') || (k.code == KeyCode::Char('f') && k.ctrl) ==> (t, r) == (PickerView {
                input: InputView { mode: InputMode::Search, query: Seq::empty(), ..s0.input },
                ..s0
            }, PickerRequest::Nothing)
            &&& k.code == KeyCode::Char('g') ==> (t, r) == (PickerView {
                input: InputView { pending_key: Some(('g', now)), ..s.input },
                ..s
            }, PickerRequest::Nothing)
        }),
{
    let s1 = PickerView {
        input: input_after(s.input, Event::Key(k), false, now),
        view: clicked_view(s.view, Event::Key(k), visible_count(s)),
        ..s
    };
    if k.code != KeyCode::Char('g') && !opens_search(k) {
        assert(s1 =~= nothing_pending(s));
        assert(visible_count(s1) == visible_count(s));
        assert(s1.view == s.view);
    }
    if k.code == KeyCode::Char(' ') {
        match visible_entry(s, s.view.cursor() as int) {
            Some(e) => {
                assert(visible_entry(s1, s1.view.cursor() as int) == Some(e));
            },
            None => {},
        }
    }
}

/// In normal mode, unless the key completes a `gg`, a key bound to nothing (any character
/// other than `j k l h G g q . / ~` and Space, `d`, `u` or `f` without Control, or a key
/// with no binding) changes nothing but drops the pending key, and asks for nothing.
pub proof fn lemma_unbound_keys(s: PickerView, k: KeyEvent, now: u64)
    requires
        s.result == PickerResult::Pending,
        s.input.mode == InputMode::Normal,
        !completes_gg(s.input.pending_key, now, k.code),
        k.code == KeyCode::Other || (k.code matches KeyCode::Char(c) && c != 'j' && c != 'k' && c != 'l' && c != 'h'
            && c != 'G' && c != 'g' && c != 'q' && c != '.' && c != '/' && c != '~' && c != ' ' && !((c == 'd' || c
            == 'u' || c == 'f') && k.ctrl)),
    ensures
        picker_step(s, Event::Key(k), now) == (nothing_pending(s), PickerRequest::Nothing),
{
    let s1 = PickerView {
        input: input_after(s.input, Event::Key(k), false, now),
        view: clicked_view(s.view, Event::Key(k), visible_count(s)),
        ..s
    };
    assert(s1 =~= nothing_pending(s));
}

/// In normal mode, while the picker is open, a pending key that the next key does not
/// complete into `gg` is dropped before that key is handled: the step is the one taken
/// with nothing pending.
pub proof fn lemma_stale_pending_dropped(s: PickerView, k: KeyEvent, now: u64)
    requires
        s.result == PickerResult::Pending,
        s.input.mode == InputMode::Normal,
        !completes_gg(s.input.pending_key, now, k.code),
    ensures
        picker_step(s, Event::Key(k), now) == picker_step(
            PickerView { input: InputView { pending_key: None, ..s.input }, ..s },
            Event::Key(k),
            now,
        ),
{
    let s0 = PickerView { input: InputView { pending_key: None, ..s.input }, ..s };
    let e = Event::Key(k);
    assert(!completes_gg(s0.input.pending_key, now, k.code));
    assert(input_after(s.input, e, false, now) =~= input_after(s0.input, e, false, now));
    assert(action_after(s.input, e, false, now) == action_after(s0.input, e, false, now));
    assert(visible_count(s) == visible_count(s0));
    let a = PickerView {
        input: input_after(s.input, e, false, now),
        view: clicked_view(s.view, e, visible_count(s)),
        ..s
    };
    let b = PickerView {
        input: input_after(s0.input, e, false, now),
        view: clicked_view(s0.view, e, visible_count(s0)),
        ..s0
    };
    assert(a =~= b);
}

/// In normal mode, with no `g` pending, `j` and then `k` bring the cursor back to where
/// it was when there is an entry below it.
pub proof fn lemma_down_then_up(s: PickerView, j: KeyEvent, k: KeyEvent, t1: u64, t2: u64)
    requires
        s.result == PickerResult::Pending,
        s.input.mode == InputMode::Normal,
        s.input.pending_key is None,
        j.code == KeyCode::Char('j'),
        k.code == KeyCode::Char('k'),
        s.view.cursor() + 1 < visible_count(s) <= usize::MAX,
    ensures
        ({
            let s1 = picker_step(s, Event::Key(j), t1).0;
            let s2 = picker_step(s1, Event::Key(k), t2).0;
            &&& s1.view.cursor() == s.view.cursor() + 1
            &&& s2.view.cursor() == s.view.cursor()
            &&& s2.selected == s.selected && s2.entries == s.entries && s2.result == s.result
        }),
{
    let a = PickerView {
        input: input_after(s.input, Event::Key(j), false, t1),
        view: clicked_view(s.view, Event::Key(j), visible_count(s)),
        ..s
    };
    assert(a.input.filter == s.input.filter);
    assert(a.view == s.view);
    assert(visible_count(a) == visible_count(s));
    assert(action_after(s.input, Event::Key(j), false, t1) == PickerAction::MoveCursorDown);
    let s1 = picker_step(s, Event::Key(j), t1).0;
    assert(s1 == cursor_down(a));
    assert(s1.view.cursor() == s.view.cursor() + 1);
    assert(s1.input.pending_key is None && s1.input.mode == InputMode::Normal);
    let b = PickerView {
        input: input_after(s1.input, Event::Key(k), false, t2),
        view: clicked_view(s1.view, Event::Key(k), visible_count(s1)),
        ..s1
    };
    assert(b.view == s1.view);
    assert(action_after(s1.input, Event::Key(k), false, t2) == PickerAction::MoveCursorUp);
    assert(picker_step(s1, Event::Key(k), t2).0 == cursor_up(b));
}

/// In normal mode a `g` leaves a `g` pending; a second `g` within the timeout asks to
/// move to the top and leaves nothing pending, while a later one starts over.
pub proof fn lemma_gg(s: InputView, first: KeyEvent, second: KeyEvent, t1: u64, t2: u64)
    requires
        s.mode == InputMode::Normal,
        first.code == KeyCode::Char('g'),
        second.code == KeyCode::Char('g'),
        !completes_gg(s.pending_key, t1, first.code),
        t1 <= t2,
    ensures
        ({
            let s1 = input_after(s, Event::Key(first), false, t1);
            &&& action_after(s, Event::Key(first), false, t1) == PickerAction::Nothing
            &&& s1.pending_key == Some(('g', t1))
            &&& s1.mode == InputMode::Normal
            &&& t2 - t1 < GG_TIMEOUT_MS ==> action_after(s1, Event::Key(second), false, t2) == PickerAction::MoveToTop
                && input_after(s1, Event::Key(second), false, t2).pending_key is None
            &&& t2 - t1 >= GG_TIMEOUT_MS ==> action_after(s1, Event::Key(second), false, t2) == PickerAction::Nothing
                && input_after(s1, Event::Key(second), false, t2).pending_key == Some(('g', t2))
        }),
{
}

/// In normal mode `/` opens the search prompt with an empty query and keeps any filter.
pub proof fn lemma_slash_opens_search(s: InputView, k: KeyEvent, now: u64)
    requires
        s.mode == InputMode::Normal,
        k.code == KeyCode::Char('/'),
        !completes_gg(s.pending_key, now, k.code),
    ensures
        input_after(s, Event::Key(k), false, now).mode == InputMode::Search,
        input_after(s, Event::Key(k), false, now).query == Seq::<char>::empty(),
        input_after(s, Event::Key(k), false, now).filter == s.filter,
{
}

/// In search mode a typed character followed by Backspace gives back the query one started
/// with, each key asking for the filter to be refreshed.
pub proof fn lemma_type_then_erase(s: InputView, typed: KeyEvent, erase: KeyEvent, now: u64)
    requires
        s.mode == InputMode::Search,
        types_into_query(typed),
        erase.code == KeyCode::Backspace,
    ensures
        ({
            let s1 = input_after(s, Event::Key(typed), false, now);
            &&& action_after(s, Event::Key(typed), false, now) == PickerAction::RefreshFilter
            &&& action_after(s1, Event::Key(erase), false, now) == PickerAction::RefreshFilter
            &&& input_after(s1, Event::Key(erase), false, now) == s
        }),
{
    let s1 = input_after(s, Event::Key(typed), false, now);
    if let KeyCode::Char(c) = typed.code {
        assert(s1.query == s.query.push(c));
        assert(s1.query.drop_last() =~= s.query);
    }
}

/// In search mode Escape returns to normal mode with the query and the filter cleared and
/// asks for the cursor to be brought back among the entries; Enter returns to normal mode
/// keeping the query and the filter.
pub proof fn lemma_leave_search(s: InputView, k: KeyEvent, now: u64)
    requires
        s.mode == InputMode::Search,
    ensures
        k.code == KeyCode::Esc ==> input_after(s, Event::Key(k), false, now) == (InputView {
            mode: InputMode::Normal,
            query: Seq::empty(),
            filter: None,
            ..s
        }) && action_after(s, Event::Key(k), false, now) == PickerAction::ClampCursor,
        k.code == KeyCode::Enter ==> input_after(s, Event::Key(k), false, now) == (InputView {
            mode: InputMode::Normal,
            ..s
        }) && action_after(s, Event::Key(k), false, now) == PickerAction::Nothing,
{
}

/// A left click on the row of a shown entry puts the cursor on that entry and changes
/// nothing else.
pub proof fn lemma_click_selects_row(s: PickerView, m: MouseEvent, now: u64)
    requires
        s.result == PickerResult::Pending,
        m.kind == MouseEventKind::LeftDown,
        ROWS_ABOVE_LIST <= m.row,
        m.row - ROWS_ABOVE_LIST < visible_count(s),
    ensures
        picker_step(s, Event::Mouse(m), now) == (at_cursor(s, (m.row - ROWS_ABOVE_LIST) as usize), PickerRequest::Nothing),
{
}

/// In normal mode, `gg` within the timeout puts the cursor on the first entry.
pub proof fn lemma_gg_moves_to_top(s: PickerView, k: KeyEvent, t1: u64, t2: u64)
    requires
        s.result == PickerResult::Pending,
        s.input.mode == InputMode::Normal,
        k.code == KeyCode::Char('g'),
        !completes_gg(s.input.pending_key, t1, k.code),
        t1 <= t2,
        t2 - t1 < GG_TIMEOUT_MS,
    ensures
        ({
            let (s1, r1) = picker_step(s, Event::Key(k), t1);
            let (s2, r2) = picker_step(s1, Event::Key(k), t2);
            &&& s1.view == s.view && r1 == PickerRequest::Nothing
            &&& s2.view.cursor() == 0 && s2.input.pending_key is None && r2 == PickerRequest::Nothing
        }),
{
}

/// In normal mode Escape and `q` close the picker as cancelled, and Enter as confirmed.
pub proof fn lemma_close_keys(s: PickerView, k: KeyEvent, now: u64)
    requires
        s.result == PickerResult::Pending,
        s.input.mode == InputMode::Normal,
        !completes_gg(s.input.pending_key, now, k.code),
    ensures
        k.code == KeyCode::Esc || k.code == KeyCode::Char('q') ==> picker_step(s, Event::Key(k), now).0.result
            == PickerResult::Cancelled,
        k.code == KeyCode::Enter ==> picker_step(s, Event::Key(k), now).0.result == PickerResult::Confirmed,
{
}

/// In normal mode Space twice leaves the selection as it was.
pub proof fn lemma_space_twice(s: PickerView, k: KeyEvent, t1: u64, t2: u64)
    requires
        s.result == PickerResult::Pending,
        s.input.mode == InputMode::Normal,
        k.code == KeyCode::Char(' '),
    ensures
        picker_step(picker_step(s, Event::Key(k), t1).0, Event::Key(k), t2).0.selected == s.selected,
{
    let s1 = picker_step(s, Event::Key(k), t1).0;
    match visible_entry(s, s.view.cursor() as int) {
        Some(e) => {
            assert(visible_entry(s1, s1.view.cursor() as int) == Some(e));
            crate::view::tree::lemma_toggle_path(s.selected, components(e.path@), components(e.path@));
        },
        None => {},
    }
}

} // verus!
