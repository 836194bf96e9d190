use vstd::prelude::*;

use crate::entry::{Entry, EntryKind};
use crate::event::{InputMode, InputState, InputView};
use crate::path::components;
use crate::view::tree::toggled_path;
use crate::view::{ListViewState, PathSet, ViewModel, ViewState, lemma_view_model};

verus! {

/// Whether the picker is still open, or how it was closed.
#[derive(Debug, Clone, Copy, PartialEq, Eq, Structural)]
pub enum PickerResult {
    Pending,
    Cancelled,
    Confirmed,
}

/// The state of a file picker: the entries of the current directory, the selected paths,
/// whether hidden files are shown, how the picker stands, the input state and the view.
#[derive(Debug)]
pub struct FilePickerState {
    pub entries: Vec<Entry>,
    pub selected: PathSet,
    pub show_hidden: bool,
    pub result: PickerResult,
    pub input: InputState,
    pub view: ViewState,
}

/// The picker state as values.
#[verifier::ext_equal]
pub struct PickerView {
    pub entries: Seq<Entry>,
    pub selected: Set<Seq<Seq<char>>>,
    pub show_hidden: bool,
    pub result: PickerResult,
    pub input: InputView,
    pub view: ViewModel,
}

impl View for FilePickerState {
    type V = PickerView;

    open spec fn view(&self) -> PickerView {
        PickerView {
            entries: self.entries@,
            selected: self.selected@,
            show_hidden: self.show_hidden,
            result: self.result,
            input: self.input@,
            view: self.view@,
        }
    }
}

/// How many entries are shown: those the search filter lets through, or all of them.
pub open spec fn visible_count(s: PickerView) -> nat {
    match s.input.filter {
        Some(f) => f.len(),
        None => s.entries.len(),
    }
}

/// Whether every index of the search filter names an entry.
pub open spec fn filter_fits(s: PickerView) -> bool {
    match s.input.filter {
        Some(f) => forall|i: int| 0 <= i < f.len() ==> #[trigger] f[i] < s.entries.len(),
        None => true,
    }
}

/// The entry shown at position `i`, if there is one.
pub open spec fn visible_entry(s: PickerView, i: int) -> Option<Entry> {
    if 0 <= i < visible_count(s) {
        match s.input.filter {
            Some(f) => if f[i] < s.entries.len() {
                Some(s.entries[f[i] as int])
            } else {
                None
            },
            None => Some(s.entries[i]),
        }
    } else {
        None
    }
}

/// The directory that entering would open: the entry under the cursor, if it is a directory.
pub open spec fn dir_under_cursor(s: PickerView) -> Option<Seq<char>> {
    match visible_entry(s, s.view.cursor() as int) {
        Some(e) => if e.kind == EntryKind::Directory {
            Some(e.path@)
        } else {
            None
        },
        None => None,
    }
}

/// The entries shown, in order.
pub open spec fn visible_entries(s: PickerView) -> Seq<Entry> {
    Seq::new(visible_count(s), |i: int| visible_entry(s, i)->0)
}

/// The state with the cursor at `c`.
pub open spec fn at_cursor(s: PickerView, c: usize) -> PickerView {
    PickerView { view: s.view.set_cursor(c), ..s }
}

/// The cursor one entry down, unless it is on the last entry.
pub open spec fn cursor_down(s: PickerView) -> PickerView {
    if s.view.cursor() + 1 < visible_count(s) {
        at_cursor(s, (s.view.cursor() + 1) as usize)
    } else {
        s
    }
}

/// The cursor one entry up, unless it is on the first.
pub open spec fn cursor_up(s: PickerView) -> PickerView {
    if s.view.cursor() > 0 {
        at_cursor(s, (s.view.cursor() - 1) as usize)
    } else {
        s
    }
}

/// The cursor on the last entry; unchanged when nothing is shown.
pub open spec fn cursor_to_bottom(s: PickerView) -> PickerView {
    if visible_count(s) > 0 {
        at_cursor(s, (visible_count(s) - 1) as usize)
    } else {
        s
    }
}

/// The cursor `n` entries down, but no further than the last entry.
pub open spec fn cursor_page_down(s: PickerView, n: usize) -> PickerView {
    if visible_count(s) > 0 {
        if s.view.cursor() + n < visible_count(s) - 1 {
            at_cursor(s, (s.view.cursor() + n) as usize)
        } else {
            at_cursor(s, (visible_count(s) - 1) as usize)
        }
    } else {
        s
    }
}

/// The cursor `n` entries up, but no further than the first entry.
pub open spec fn cursor_page_up(s: PickerView, n: usize) -> PickerView {
    if s.view.cursor() > n {
        at_cursor(s, (s.view.cursor() - n) as usize)
    } else {
        at_cursor(s, 0)
    }
}

/// The cursor brought back among the shown entries: onto the last one if it lies past
/// it, onto the top if nothing is shown.
pub open spec fn cursor_clamped(s: PickerView) -> PickerView {
    if visible_count(s) == 0 {
        at_cursor(s, 0)
    } else if s.view.cursor() >= visible_count(s) {
        at_cursor(s, (visible_count(s) - 1) as usize)
    } else {
        s
    }
}

/// The entry under the cursor selected if it was not, and unselected if it was.
pub open spec fn selection_toggled(s: PickerView) -> PickerView {
    match visible_entry(s, s.view.cursor() as int) {
        Some(e) => PickerView { selected: toggled_path(s.selected, components(e.path@)), ..s },
        None => s,
    }
}

/// The directory entered is the one drawn under the cursor: among the entries shown (the
/// filtered ones while a filter is active, in the order shown), the one at the cursor, when
/// it is a directory. It is the same entry that Space would select or unselect.
pub proof fn lemma_enter_what_is_shown(s: PickerView)
    requires
        filter_fits(s),
    ensures
        dir_under_cursor(s) is Some <==> (s.view.cursor() < visible_entries(s).len()
            && visible_entries(s)[s.view.cursor() as int].kind == EntryKind::Directory),
        dir_under_cursor(s) matches Some(p) ==> {
            &&& p == visible_entries(s)[s.view.cursor() as int].path@
            &&& selection_toggled(s).selected == toggled_path(s.selected, components(p))
        },
{
    let c = s.view.cursor() as int;
    if c < visible_count(s) {
        assert(visible_entries(s)[c] == visible_entry(s, c)->0);
        match s.input.filter {
            Some(f) => {
                assert(f[c] < s.entries.len());
            },
            None => {},
        }
    }
}

impl FilePickerState {
    /// A picker open on `entries`: nothing selected, normal mode, the list view at the top.
    pub fn new(entries: Vec<Entry>, show_hidden: bool) -> (s: Self)
        ensures
            s@ == (PickerView {
                entries: entries@,
                selected: Set::empty(),
                show_hidden,
                result: PickerResult::Pending,
                input: InputView { mode: InputMode::Normal, pending_key: None, query: Seq::empty(), filter: None },
                view: ViewModel::List { cursor: 0, scroll: 0 },
            }),
    {
        FilePickerState {
            entries,
            selected: PathSet::new(),
            show_hidden,
            result: PickerResult::Pending,
            input: InputState::new(),
            view: ViewState::List(ListViewState::new()),
        }
    }

    /// How many entries are shown.
    pub fn visible_count(&self) -> (r: usize)
        ensures
            r == visible_count(self@),
    {
        match &self.input.filtered_indices {
            Some(f) => f.len(),
            None => self.entries.len(),
        }
    }

    /// Whether every index of the search filter names an entry.
    pub fn filter_fits(&self) -> (r: bool)
        ensures
            r == filter_fits(self@),
    {
        match &self.input.filtered_indices {
            Some(f) => {
                let mut i: usize = 0;
                assert(self@.input.filter == Some(f@));
                while i < f.len()
                    invariant
                        i <= f.len(),
                        self@.input.filter == Some(f@),
                        forall|k: int| 0 <= k < i ==> #[trigger] f@[k] < self.entries.len(),
                    decreases f.len() - i,
                {
                    if f[i] >= self.entries.len() {
                        assert(self@.input.filter == Some(f@));
                        assert(!(f@[i as int] < self@.entries.len()));
                        assert(!filter_fits(self@)) by {
                            let ff = self@.input.filter->0;
                            assert(ff == f@);
                            assert(!(ff[i as int] < self@.entries.len()));
                        }
                        return false;
                    }
                    i = i + 1;
                }
                assert(self@.input.filter == Some(f@));
                true
            },
            None => true,
        }
    }

    /// The index into `entries` of the entry shown at position `i`, if there is one.
    fn visible_index(&self, i: usize) -> (r: Option<usize>)
        ensures
            match visible_entry(self@, i as int) {
                Some(e) => r matches Some(k) && k < self.entries.len() && self.entries@[k as int] == e,
                None => r is None,
            },
    {
        match &self.input.filtered_indices {
            Some(f) => {
                if i < f.len() && f[i] < self.entries.len() {
                    Some(f[i])
                } else {
                    None
                }
            },
            None => {
                if i < self.entries.len() {
                    Some(i)
                } else {
                    None
                }
            },
        }
    }

    /// The path of the directory to open when entering: that of the entry under the
    /// cursor, if it is a directory; `None` otherwise.
    pub fn dir_to_enter(&self) -> (r: Option<String>)
        ensures
            match r {
                Some(p) => dir_under_cursor(self@) == Some(p@),
                None => dir_under_cursor(self@) is None,
            },
    {
        let c = self.view.cursor();
        proof {
            lemma_view_model(self.view, self.view, c);
        }
        match self.visible_index(c) {
            Some(k) => {
                if self.entries[k].kind == EntryKind::Directory {
                    Some(self.entries[k].path.clone())
                } else {
                    None
                }
            },
            None => None,
        }
    }

    /// The entries shown, in order.
    pub fn visible_entries(&self) -> (r: Vec<Entry>)
        requires
            filter_fits(self@),
        ensures
            r@ == visible_entries(self@),
    {
        let n = self.visible_count();
        let mut r: Vec<Entry> = Vec::new();
        let mut i: usize = 0;
        while i < n
            invariant
                n == visible_count(self@),
                filter_fits(self@),
                i <= n,
                r@ =~= Seq::new(i as nat, |j: int| visible_entry(self@, j)->0),
            decreases n - i,
        {
            match self.visible_index(i) {
                Some(k) => {
                    r.push(self.entries[k].clone());
                },
                None => {
                    assert(false);
                },
            }
            i = i + 1;
        }
        r
    }

    fn set_cursor(&mut self, c: usize)
        ensures
            final(self)@ == at_cursor(old(self)@, c),
    {
        *self.view.cursor_mut() = c;
        proof {
            lemma_view_model(old(self).view, old(self).view, c);
        }
        assert(self@ =~= at_cursor(old(self)@, c));
    }

    /// Moves the cursor one entry down, unless it is on the last entry.
    pub fn move_cursor_down(&mut self)
        ensures
            final(self)@ == cursor_down(old(self)@),
    {
        let c = self.view.cursor();
        let n = self.visible_count();
        proof {
            lemma_view_model(self.view, self.view, c);
        }
        if n > 0 && c < n - 1 {
            self.set_cursor(c + 1);
        }
    }

    /// Moves the cursor one entry up, unless it is on the first.
    pub fn move_cursor_up(&mut self)
        ensures
            final(self)@ == cursor_up(old(self)@),
    {
        let c = self.view.cursor();
        proof {
            lemma_view_model(self.view, self.view, c);
        }
        if c > 0 {
            self.set_cursor(c - 1);
        }
    }

    /// Moves the cursor onto the first entry.
    pub fn move_to_top(&mut self)
        ensures
            final(self)@ == at_cursor(old(self)@, 0),
    {
        self.set_cursor(0);
    }

    /// Moves the cursor onto the last entry, if there is one.
    pub fn move_to_bottom(&mut self)
        ensures
            final(self)@ == cursor_to_bottom(old(self)@),
    {
        let n = self.visible_count();
        if n > 0 {
            self.set_cursor(n - 1);
        }
    }

    /// Moves the cursor `rows` entries down, stopping at the last entry.
    pub fn move_half_page_down(&mut self, rows: usize)
        ensures
            final(self)@ == cursor_page_down(old(self)@, rows),
    {
        let c = self.view.cursor();
        let n = self.visible_count();
        proof {
            lemma_view_model(self.view, self.view, c);
        }
        if n > 0 {
            if c < n - 1 && rows < n - 1 - c {
                self.set_cursor(c + rows);
            } else {
                self.set_cursor(n - 1);
            }
        }
    }

    /// Moves the cursor `rows` entries up, stopping at the first entry.
    pub fn move_half_page_up(&mut self, rows: usize)
        ensures
            final(self)@ == cursor_page_up(old(self)@, rows),
    {
        let c = self.view.cursor();
        proof {
            lemma_view_model(self.view, self.view, c);
        }
        if c > rows {
            self.set_cursor(c - rows);
        } else {
            self.set_cursor(0);
        }
    }

    /// Brings the cursor back among the shown entries.
    pub fn clamp_cursor_pub(&mut self)
        ensures
            final(self)@ == cursor_clamped(old(self)@),
    {
        let c = self.view.cursor();
        let n = self.visible_count();
        proof {
            lemma_view_model(self.view, self.view, c);
        }
        if n == 0 {
            self.set_cursor(0);
        } else if c >= n {
            self.set_cursor(n - 1);
        }
    }

    /// Selects the entry under the cursor if it is not selected, and unselects it if it is.
    pub fn toggle_select(&mut self)
        ensures
            final(self)@ == selection_toggled(old(self)@),
    {
        let c = self.view.cursor();
        proof {
            lemma_view_model(self.view, self.view, c);
        }
        match self.visible_index(c) {
            Some(k) => {
                let path = self.entries[k].path.clone();
                if !self.selected.remove(&path) {
                    self.selected.insert(path);
                }
                assert(self@ =~= selection_toggled(old(self)@));
            },
            None => {},
        }
    }

    /// Closes the picker, confirming the choice.
    pub fn confirm(&mut self)
        ensures
            final(self)@ == (PickerView { result: PickerResult::Confirmed, ..old(self)@ }),
    {
        self.result = PickerResult::Confirmed;
    }

    /// Closes the picker, dropping the choice.
    pub fn cancel(&mut self)
        ensures
            final(self)@ == (PickerView { result: PickerResult::Cancelled, ..old(self)@ }),
    {
        self.result = PickerResult::Cancelled;
    }

    /// Switches between the list and the tree view; the view switched to starts afresh.
    pub fn toggle_view(&mut self)
        ensures
            final(self)@ == (PickerView { view: old(self)@.view.toggled(), ..old(self)@ }),
    {
        let mut v = ViewState::List(ListViewState::new());
        std::mem::swap(&mut v, &mut self.view);
        let t = v.toggle();
        proof {
            lemma_view_model(v, t, 0);
        }
        self.view = t;
        assert(self@ =~= (PickerView { view: old(self)@.view.toggled(), ..old(self)@ }));
    }

    /// Shows hidden files if they are hidden, and hides them if they are shown. The
    /// entries are then to be read again and given to `set_entries`.
    pub fn toggle_hidden(&mut self)
        ensures
            final(self)@ == (PickerView { show_hidden: !old(self)@.show_hidden, ..old(self)@ }),
    {
        self.show_hidden = !self.show_hidden;
    }

    /// Puts newly read entries in place: the search filter, which counted the old
    /// entries, is dropped, and the cursor is brought back among the entries.
    pub fn set_entries(&mut self, entries: Vec<Entry>)
        ensures
            final(self)@ == cursor_clamped(
                PickerView {
                    entries: entries@,
                    input: InputView { filter: None, ..old(self)@.input },
                    ..old(self)@
                },
            ),
    {
        self.entries = entries;
        self.input.filtered_indices = None;
        self.clamp_cursor_pub();
    }
}

} // verus!
