use vstd::prelude::*;

use crate::entry::{Entry, EntryKind};
use crate::event::InputMode;
use crate::path::components;
use crate::view::{PathSet, ViewState};

verus! {

/// Columns taken by the selection marker in front of each name.
pub const PREFIX_CELLS: usize = 3;

/// The style that a status line is drawn in.
#[derive(Debug, Clone, Copy, PartialEq, Eq, Structural)]
pub enum StatusStyle {
    Error,
    SearchInput,
    StatusBar,
}

/// Which highlight a row is drawn with: the cursor's wins over the selection's.
#[derive(Debug, Clone, Copy, PartialEq, Eq, Structural)]
pub enum Highlight {
    Cursor,
    Selected,
    Plain,
}

/// How one entry row of the list is drawn: which entry, on which row of the list area,
/// how it is highlighted, and how many cells each part takes once cut to the width.
#[derive(Debug, Clone, Copy, PartialEq, Eq, Structural)]
pub struct RowLayout {
    pub entry_index: usize,
    pub row: usize,
    pub is_cursor: bool,
    pub is_selected: bool,
    pub highlight: Highlight,
    pub prefix_cells: usize,
    pub name_cells: usize,
    pub suffix_cells: usize,
    /// Cells after the text painted with the cursor background; zero off the cursor.
    pub fill_cells: usize,
}

/// The marker in front of a name: a star for a selected entry.
pub fn prefix_text(selected: bool) -> (s: &'static str)
    ensures
        s@.len() == PREFIX_CELLS,
        selected ==> s@ == " * "@,
        !selected ==> s@ == "   "@,
{
    proof {
        reveal_strlit(" * ");
        reveal_strlit("   ");
    }
    if selected {
        " * "
    } else {
        "   "
    }
}

/// How many columns the mark after a name takes.
pub open spec fn suffix_len(kind: EntryKind) -> nat {
    match kind {
        EntryKind::Directory => 1,
        EntryKind::Symlink => 3,
        EntryKind::File => 0,
    }
}

/// The mark after a name: a slash for a directory, an arrow for a symbolic link.
pub fn suffix_text(kind: EntryKind) -> (s: &'static str)
    ensures
        s@.len() == suffix_len(kind),
        s@ == match kind {
            EntryKind::Directory => "/"@,
            EntryKind::Symlink => " ->"@,
            EntryKind::File => ""@,
        },
{
    proof {
        reveal_strlit("/");
        reveal_strlit(" ->");
        reveal_strlit("");
    }
    match kind {
        EntryKind::Directory => "/",
        EntryKind::Symlink => " ->",
        EntryKind::File => "",
    }
}

/// The scroll offset that keeps `cursor` within `height` rows: unchanged if the cursor
/// is shown, else moved just far enough.
pub open spec fn scrolled_to(cursor: usize, scroll: usize, height: usize) -> int {
    if cursor < scroll {
        cursor as int
    } else if cursor >= scroll + height {
        cursor + 1 - height
    } else {
        scroll as int
    }
}

/// Whether moving the scroll offset to show the cursor overflows a `usize`: the offset
/// plus the height, or the cursor plus one where the cursor lies below the window.
pub open spec fn scroll_overflows(cursor: usize, scroll: usize, height: usize) -> bool {
    cursor >= scroll && (scroll + height > usize::MAX || (cursor >= scroll + height && cursor == usize::MAX))
}

/// Whether `path` is among the selected paths: whether a selected path has its components.
pub open spec fn is_selected_path(selected: Set<Seq<Seq<char>>>, path: Seq<char>) -> bool {
    selected.contains(components(path))
}

/// The smaller of two numbers.
pub open spec fn min_of(a: int, b: int) -> int {
    if a < b {
        a
    } else {
        b
    }
}

/// How the `k`-th shown row is laid out, the list being scrolled to `scroll`.
pub open spec fn row_layout(
    entries: Seq<Entry>,
    selected: Set<Seq<Seq<char>>>,
    cursor: usize,
    scroll: int,
    width: usize,
    k: int,
) -> RowLayout {
    let idx = scroll + k;
    let e = entries[idx];
    let prefix = min_of(PREFIX_CELLS as int, width as int);
    let name = min_of(e.name@.len() as int, width - prefix);
    let suffix = min_of(suffix_len(e.kind) as int, width - prefix - name);
    RowLayout {
        entry_index: idx as usize,
        row: k as usize,
        is_cursor: idx == cursor,
        is_selected: is_selected_path(selected, e.path@),
        highlight: if idx == cursor {
            Highlight::Cursor
        } else if is_selected_path(selected, e.path@) {
            Highlight::Selected
        } else {
            Highlight::Plain
        },
        prefix_cells: prefix as usize,
        name_cells: name as usize,
        suffix_cells: suffix as usize,
        fill_cells: if idx == cursor {
            (width - prefix - name - suffix) as usize
        } else {
            0
        },
    }
}

/// How many rows are shown from `scroll` on, in `height` rows.
pub open spec fn shown_rows(len: int, scroll: int, height: usize) -> int {
    if scroll < len {
        min_of(height as int, len - scroll)
    } else {
        0
    }
}

/// Lays out the entry list in an area of `height` rows and `width` columns.
///
/// With no entry there is nothing to lay out (the area shows that it is empty) and the
/// view is left alone. Otherwise the scroll offset first moves so that the cursor is
/// shown, then one row is laid out for each entry from the scroll offset on, as many as fit.
pub fn file_list_layout(
    view: &mut ViewState,
    entries: &Vec<Entry>,
    selected: &PathSet,
    height: usize,
    width: usize,
) -> (r: Option<Vec<RowLayout>>)
    requires
        entries.len() == 0 || !scroll_overflows(old(view).cursor_of(), old(view).scroll_of(), height),
    ensures
        entries.len() == 0 ==> r is None && *final(view) == *old(view),
        entries.len() > 0 ==> {
            let scroll = scrolled_to(old(view).cursor_of(), old(view).scroll_of(), height);
            &&& *final(view) == old(view).with_scroll(scroll as usize)
            &&& r matches Some(rows) && rows@ == Seq::new(
                shown_rows(entries.len() as int, scroll, height) as nat,
                |k: int| row_layout(entries@, selected@, old(view).cursor_of(), scroll, width, k),
            )
        },
{
    if entries.len() == 0 {
        return None;
    }
    let cursor = view.cursor();
    {
        let scroll = view.scroll_offset_mut();
        if cursor < *scroll {
            *scroll = cursor;
        } else if cursor >= *scroll + height {
            *scroll = cursor + 1 - height;
        }
    }
    let scroll = view.scroll_offset();
    let ghost shown = shown_rows(entries.len() as int, scroll as int, height);
    let mut rows: Vec<RowLayout> = Vec::new();
    let mut k: usize = 0;
    while k < height && k < entries.len() && scroll < entries.len() - k
        invariant
            k <= height,
            k > 0 ==> scroll as int + k <= entries.len(),
            k <= shown,
            shown == shown_rows(entries.len() as int, scroll as int, height),
            rows@ =~= Seq::new(k as nat, |j: int| row_layout(entries@, selected@, cursor, scroll as int, width, j)),
        decreases height - k,
    {
        let idx = scroll + k;
        let e = &entries[idx];
        let is_cursor = idx == cursor;
        let is_selected = selected.contains(&e.path);
        let prefix = if PREFIX_CELLS < width {
            PREFIX_CELLS
        } else {
            width
        };
        let name_len = e.name.as_str().unicode_len();
        let name = if name_len < width - prefix {
            name_len
        } else {
            width - prefix
        };
        let suffix_full = suffix_text(e.kind).unicode_len();
        let suffix = if suffix_full < width - prefix - name {
            suffix_full
        } else {
            width - prefix - name
        };
        let highlight = if is_cursor {
            Highlight::Cursor
        } else if is_selected {
            Highlight::Selected
        } else {
            Highlight::Plain
        };
        let fill = if is_cursor {
            width - prefix - name - suffix
        } else {
            0
        };
        rows.push(
            RowLayout {
                entry_index: idx,
                row: k,
                is_cursor,
                is_selected,
                highlight,
                prefix_cells: prefix,
                name_cells: name,
                suffix_cells: suffix,
                fill_cells: fill,
            },
        );
        k = k + 1;
    }
    assert(k == shown);
    Some(rows)
}

/// The digit `d` as a character.
pub open spec fn digit_char(d: nat) -> char {
    (d + 48) as char
}

/// The decimal numeral of `n`, without leading zeros.
pub open spec fn decimal(n: nat) -> Seq<char>
    decreases n,
{
    if n < 10 {
        seq![digit_char(n)]
    } else {
        decimal(n / 10).push(digit_char(n % 10))
    }
}

/// Appends the decimal numeral of `n` to `s`.
fn push_decimal(s: &mut String, n: usize)
    ensures
        final(s)@ == old(s)@ + decimal(n as nat),
    decreases n,
{
    if n >= 10 {
        push_decimal(s, n / 10);
    }
    let d = (n % 10) as u8;
    let c = (d + 48) as char;
    assert(c == digit_char((n % 10) as nat));
    s.push(c);
    assert(s@ =~= old(s)@ + decimal(n as nat));
}

/// The status line text in normal mode.
pub open spec fn normal_status(selected_count: usize, show_hidden: bool, view: ViewState) -> Seq<char> {
    decimal(selected_count as nat) + " selected | hidden: "@ + (if show_hidden {
        "on"@
    } else {
        "off"@
    }) + " | view: "@ + (match view {
        ViewState::List(_) => "list"@,
        ViewState::Tree(_) => "tree"@,
    })
}

/// The status line text while searching.
pub open spec fn search_status(query: Seq<char>, visible_count: usize) -> Seq<char> {
    "/ "@ + query + "  ("@ + decimal(visible_count as nat) + " matches)"@
}

/// The text of the status line and its style: an error message if there is one;
/// else, while searching, the query and the number of matches; else the number of
/// selected entries, whether hidden files are shown, and the active view.
pub fn status_line(
    error: &Option<String>,
    mode: InputMode,
    query: &String,
    visible_count: usize,
    selected_count: usize,
    show_hidden: bool,
    view: &ViewState,
) -> (r: (String, StatusStyle))
    ensures
        error matches Some(e) ==> r.0@ == e@ && r.1 == StatusStyle::Error,
        error is None && mode == InputMode::Search ==> r.0@ == search_status(query@, visible_count)
            && r.1 == StatusStyle::SearchInput,
        error is None && mode == InputMode::Normal ==> r.0@ == normal_status(selected_count, show_hidden, *view)
            && r.1 == StatusStyle::StatusBar,
{
    if let Some(err) = error {
        return (err.clone(), StatusStyle::Error);
    }
    match mode {
        InputMode::Search => {
            let mut text = String::from_str("/ ");
            text.append(query.as_str());
            text.append("  (");
            push_decimal(&mut text, visible_count);
            text.append(" matches)");
            (text, StatusStyle::SearchInput)
        },
        InputMode::Normal => {
            let mut text = String::new();
            push_decimal(&mut text, selected_count);
            text.append(" selected | hidden: ");
            if show_hidden {
                text.append("on");
            } else {
                text.append("off");
            }
            text.append(" | view: ");
            match view {
                ViewState::List(_) => text.append("list"),
                ViewState::Tree(_) => text.append("tree"),
            }
            assert(text@ =~= normal_status(selected_count, show_hidden, *view));
            (text, StatusStyle::StatusBar)
        },
    }
}

/// With at least one row of room, the scroll offset that the layout moves to shows the
/// cursor; a cursor on an entry gets its row, marked as the cursor's.
pub proof fn lemma_cursor_shown(
    entries: Seq<Entry>,
    selected: Set<Seq<Seq<char>>>,
    cursor: usize,
    scroll: usize,
    height: usize,
    width: usize,
)
    requires
        height > 0,
    ensures
        ({
            let top = scrolled_to(cursor, scroll, height);
            &&& 0 <= top <= cursor < top + height
            &&& cursor < entries.len() ==> {
                &&& cursor - top < shown_rows(entries.len() as int, top, height)
                &&& row_layout(entries, selected, cursor, top, width, cursor - top).is_cursor
                &&& row_layout(entries, selected, cursor, top, width, cursor - top).entry_index == cursor
            }
        }),
{
}

/// A laid-out row never takes more than the width; the cursor's row takes all of it.
pub proof fn lemma_row_fits(
    entries: Seq<Entry>,
    selected: Set<Seq<Seq<char>>>,
    cursor: usize,
    scroll: int,
    width: usize,
    k: int,
)
    requires
        0 <= scroll,
        0 <= k,
        scroll + k < entries.len(),
    ensures
        ({
            let r = row_layout(entries, selected, cursor, scroll, width, k);
            &&& r.prefix_cells + r.name_cells + r.suffix_cells + r.fill_cells <= width
            &&& r.is_cursor ==> r.prefix_cells + r.name_cells + r.suffix_cells + r.fill_cells == width
            &&& !r.is_cursor ==> r.fill_cells == 0
        }),
{
}

/// Whether offset `o` shows `cursor` in `height` rows.
pub open spec fn shows_row(o: int, cursor: usize, height: usize) -> bool {
    0 <= o <= cursor < o + height
}

/// How far offset `o` lies from offset `p`.
pub open spec fn distance(o: int, p: int) -> int {
    if o >= p {
        o - p
    } else {
        p - o
    }
}

/// The layout scrolls no more than it must: among all offsets that show the cursor, it
/// moves to one nearest the offset it had, so it keeps the offset when the cursor is
/// already shown, and otherwise brings the cursor to the top or the bottom row, whichever
/// edge it passed.
pub proof fn lemma_scroll_moves_least(cursor: usize, scroll: usize, height: usize, other: int)
    requires
        height > 0,
        shows_row(other, cursor, height),
    ensures
        shows_row(scrolled_to(cursor, scroll, height), cursor, height),
        distance(scrolled_to(cursor, scroll, height), scroll as int) <= distance(other, scroll as int),
        shows_row(scroll as int, cursor, height) ==> scrolled_to(cursor, scroll, height) == scroll,
{
}

/// Which word follows "hidden: " in the normal status line depends on the flag alone:
/// with the same count and view, the line with hidden files shown and the line without
/// are the same text around "on" and "off".
pub proof fn lemma_hidden_word(selected_count: usize, view: ViewState)
    ensures
        exists|before: Seq<char>, after: Seq<char>|
            before.len() >= 8 && before.skip(before.len() - 8) == "hidden: "@
                && #[trigger] normal_status(selected_count, true, view) == before + "on"@ + after
                && #[trigger] normal_status(selected_count, false, view) == before + "off"@ + after,
{
    reveal_strlit("hidden: ");
    reveal_strlit(" selected | hidden: ");
    let before = decimal(selected_count as nat) + " selected | hidden: "@;
    let after = " | view: "@ + (match view {
        ViewState::List(_) => "list"@,
        ViewState::Tree(_) => "tree"@,
    });
    assert(before.skip(before.len() - 8) =~= "hidden: "@);
    assert(normal_status(selected_count, true, view) =~= before + "on"@ + after);
    assert(normal_status(selected_count, false, view) =~= before + "off"@ + after);
}

} // verus!
