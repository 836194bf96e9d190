pub mod tree;

use vstd::prelude::*;

use crate::path::{components, path_components, same_strings, strings_view};

verus! {

/// A path as it was given, and its components.
#[derive(Debug)]
struct KeyedPath {
    path: String,
    key: Vec<String>,
}

/// A set of paths, where two paths are the same path when their components are the same
/// (so `/a/b`, `/a/b/` and `/a//./b` are one path). It keeps the first spelling given.
#[derive(Debug)]
pub struct PathSet {
    items: Vec<KeyedPath>,
}

impl View for PathSet {
    type V = Set<Seq<Seq<char>>>;

    closed spec fn view(&self) -> Set<Seq<Seq<char>>> {
        self.keys().to_set()
    }
}

impl PathSet {
    /// Each path held, spelled as it was first given, in the order added.
    pub closed spec fn spellings(self) -> Seq<Seq<char>> {
        Seq::new(self.items.len() as nat, |i: int| self.items[i].path@)
    }

    /// The components of each path held, in the order held.
    closed spec fn keys(self) -> Seq<Seq<Seq<char>>> {
        Seq::new(self.items.len() as nat, |i: int| components(self.items[i].path@))
    }

    #[verifier::type_invariant]
    spec fn well_kept(self) -> bool {
        &&& forall|i: int| 0 <= i < self.items.len() ==> strings_view(#[trigger] self.items[i].key@) == components(self.items[i].path@)
        &&& self.keys().no_duplicates()
    }

    /// The empty set.
    pub fn new() -> (s: Self)
        ensures
            s@ == Set::<Seq<Seq<char>>>::empty(),
            s.spellings() == Seq::<Seq<char>>::empty(),
    {
        let s = PathSet { items: Vec::new() };
        assert(s@ =~= Set::<Seq<Seq<char>>>::empty());
        assert(s.spellings() =~= Seq::<Seq<char>>::empty());
        s
    }

    /// Where the path with components `key` stands in the set, if it does.
    fn position(&self, key: &Vec<String>) -> (r: Option<usize>)
        requires
            self.well_kept(),
        ensures
            match r {
                Some(i) => i < self.items.len() && self.keys()[i as int] == strings_view(key@),
                None => !self@.contains(strings_view(key@)),
            },
    {
        let mut i: usize = 0;
        while i < self.items.len()
            invariant
                i <= self.items.len(),
                self.well_kept(),
                forall|k: int| 0 <= k < i ==> self.keys()[k] != strings_view(key@),
            decreases self.items.len() - i,
        {
            if same_strings(&self.items[i].key, key) {
                assert(strings_view(self.items@[i as int].key@) == components(self.items@[i as int].path@));
                return Some(i);
            }
            assert(strings_view(self.items@[i as int].key@) == components(self.items@[i as int].path@));
            i = i + 1;
        }
        None
    }

    /// Whether `path` is in the set.
    pub fn contains(&self, path: &String) -> (r: bool)
        ensures
            r == self@.contains(components(path@)),
    {
        proof {
            use_type_invariant(self);
        }
        let key = path_components(path);
        match self.position(&key) {
            Some(i) => {
                assert(self.keys().contains(components(path@))) by {
                    assert(self.keys()[i as int] == components(path@));
                }
                true
            },
            None => false,
        }
    }

    /// Whether the set holds no path.
    pub fn is_empty(&self) -> (r: bool)
        ensures
            r == (self@ == Set::<Seq<Seq<char>>>::empty()),
    {
        if self.items.len() == 0 {
            assert(self@ =~= Set::<Seq<Seq<char>>>::empty());
            true
        } else {
            assert(self@.contains(self.keys()[0]));
            false
        }
    }

    /// How many paths the set holds.
    pub fn len(&self) -> (r: usize)
        ensures
            r == self@.len(),
    {
        proof {
            use_type_invariant(self);
            self.keys().unique_seq_to_set();
        }
        self.items.len()
    }

    /// The paths of the set, each as first given, in the order added.
    pub fn paths(&self) -> (r: Vec<String>)
        ensures
            r@.map_values(|s: String| s@) == self.spellings(),
            r.len() == self@.len(),
            forall|k: Seq<Seq<char>>| self@.contains(k) <==> exists|i: int| 0 <= i < r.len() && #[trigger] components(r@[i]@) == k,
    {
        proof {
            use_type_invariant(self);
            self.keys().unique_seq_to_set();
        }
        let mut r: Vec<String> = Vec::new();
        let mut i: usize = 0;
        while i < self.items.len()
            invariant
                i <= self.items.len(),
                r.len() == i,
                forall|j: int| 0 <= j < i ==> #[trigger] r@[j]@ == self.items@[j].path@,
            decreases self.items.len() - i,
        {
            r.push(self.items[i].path.clone());
            i = i + 1;
        }
        assert forall|k: Seq<Seq<char>>| self@.contains(k) implies exists|i: int| 0 <= i < r.len() && #[trigger] components(r@[i]@) == k by {
            let i = choose|i: int| 0 <= i < self.keys().len() && self.keys()[i] == k;
            assert(components(r@[i]@) == k);
        }
        assert forall|k: Seq<Seq<char>>| (exists|i: int| 0 <= i < r.len() && #[trigger] components(r@[i]@) == k) implies self@.contains(k) by {
            let i = choose|i: int| 0 <= i < r.len() && #[trigger] components(r@[i]@) == k;
            assert(self.keys()[i] == k);
        }
        assert(r@.map_values(|s: String| s@) =~= self.spellings());
        r
    }

    /// Adds `path`; answers whether it was absent before. A path already held keeps its
    /// first spelling.
    pub fn insert(&mut self, path: String) -> (r: bool)
        ensures
            r == !old(self)@.contains(components(path@)),
            final(self)@ == old(self)@.insert(components(path@)),
            final(self).spellings() == if r {
                old(self).spellings().push(path@)
            } else {
                old(self).spellings()
            },
    {
        proof {
            use_type_invariant(&*self);
        }
        let key = path_components(&path);
        match self.position(&key) {
            Some(i) => {
                proof {
                    assert(self.keys().contains(components(path@))) by {
                        assert(self.keys()[i as int] == components(path@));
                    }
                    assert(self@ =~= self@.insert(components(path@)));
                }
                false
            },
            None => {
                let ghost before = self.keys();
                let ghost k = components(path@);
                let ghost path_view = path;
                let mut items: Vec<KeyedPath> = Vec::new();
                std::mem::swap(&mut items, &mut self.items);
                items.push(KeyedPath { path, key });
                let ghost after = Seq::new(items@.len() as nat, |i: int| components(items@[i].path@));
                assert(after =~= before.push(k));
                assert(after.no_duplicates()) by {
                    assert forall|a: int, b: int| 0 <= a < after.len() && 0 <= b < after.len() && a != b implies after[a] != after[b] by {
                        if a == before.len() {
                            assert(before.contains(before[b]));
                        } else if b == before.len() {
                            assert(before.contains(before[a]));
                        }
                    }
                }
                self.items = items;
                assert(self.keys() =~= before.push(k));
                assert(self.spellings() =~= old(self).spellings().push(path_view@));
                proof {
                    before.lemma_push_to_set_commute(k);
                }
                assert(self@ =~= old(self)@.insert(k));
                true
            },
        }
    }

    /// Removes `path`; answers whether it was present.
    pub fn remove(&mut self, path: &String) -> (r: bool)
        ensures
            r == old(self)@.contains(components(path@)),
            final(self)@ == old(self)@.remove(components(path@)),
            r ==> exists|i: int|
                0 <= i < old(self).spellings().len() && components(#[trigger] old(self).spellings()[i]) == components(path@)
                    && final(self).spellings() == old(self).spellings().remove(i),
            !r ==> final(self).spellings() == old(self).spellings(),
    {
        proof {
            use_type_invariant(&*self);
        }
        let key = path_components(path);
        match self.position(&key) {
            None => {
                assert(self@ =~= self@.remove(components(path@)));
                false
            },
            Some(i) => {
                let ghost before = self.keys();
                let ghost k = components(path@);
                let ghost old_items = self.items@;
                let mut items: Vec<KeyedPath> = Vec::new();
                std::mem::swap(&mut items, &mut self.items);
                items.remove(i);
                let ghost after = Seq::new(items@.len() as nat, |j: int| components(items@[j].path@));
                assert(after =~= before.remove(i as int));
                assert(after.no_duplicates()) by {
                    assert forall|a: int, b: int| 0 <= a < after.len() && 0 <= b < after.len() && a != b implies after[a] != after[b] by {
                        let a1 = if a < i { a } else { a + 1 };
                        let b1 = if b < i { b } else { b + 1 };
                        assert(after[a] == before[a1] && after[b] == before[b1]);
                    }
                }
                assert forall|j: int| 0 <= j < items.len() implies strings_view(#[trigger] items@[j].key@) == components(items@[j].path@) by {
                    if j < i {
                        assert(items@[j] == old_items[j]);
                    } else {
                        assert(items@[j] == old_items[j + 1]);
                    }
                }
                self.items = items;
                assert(self.keys() =~= before.remove(i as int));
                assert(self.spellings() =~= old(self).spellings().remove(i as int));
                assert(components(old(self).spellings()[i as int]) == components(path@));
                assert(self@ =~= old(self)@.remove(k)) by {
                    assert forall|q: Seq<Seq<char>>| #[trigger] self@.contains(q) implies old(self)@.remove(k).contains(q) by {
                        let j = choose|j: int| 0 <= j < self.keys().len() && self.keys()[j] == q;
                        let j1 = if j < i { j } else { j + 1 };
                        assert(before[j1] == q);
                        assert(before[i as int] == k);
                    }
                    assert forall|q: Seq<Seq<char>>| #[trigger] old(self)@.remove(k).contains(q) implies self@.contains(q) by {
                        let j = choose|j: int| 0 <= j < before.len() && before[j] == q;
                        assert(j != i);
                        if j < i {
                            assert(self.keys()[j] == q);
                        } else {
                            assert(self.keys()[j - 1] == q);
                        }
                    }
                }
                true
            },
        }
    }
}

impl Clone for PathSet {
    fn clone(&self) -> (r: Self)
        ensures
            r@ == self@,
            r.spellings() == self.spellings(),
    {
        proof {
            use_type_invariant(self);
        }
        let mut items: Vec<KeyedPath> = Vec::new();
        let mut i: usize = 0;
        while i < self.items.len()
            invariant
                i <= self.items.len(),
                items.len() == i,
                forall|j: int| 0 <= j < i ==> #[trigger] items@[j].path@ == self.items@[j].path@
                    && strings_view(items@[j].key@) == strings_view(self.items@[j].key@),
                forall|j: int| 0 <= j < self.items.len() ==> strings_view(#[trigger] self.items@[j].key@) == components(self.items@[j].path@),
            decreases self.items.len() - i,
        {
            let key = self.items[i].key.clone();
            assert(key@ =~= self.items@[i as int].key@);
            items.push(KeyedPath { path: self.items[i].path.clone(), key });
            i = i + 1;
        }
        let ghost copied = Seq::new(items@.len() as nat, |j: int| components(items@[j].path@));
        assert(copied =~= self.keys());
        assert forall|j: int| 0 <= j < items.len() implies strings_view(#[trigger] items@[j].key@) == components(items@[j].path@) by {
            assert(strings_view(self.items@[j].key@) == components(self.items@[j].path@));
        }
        let r = PathSet { items };
        assert(r.keys() =~= self.keys());
        assert(r.spellings() =~= self.spellings());
        r
    }
}

/// Cursor and scroll position of the flat list view.
#[derive(Debug, Clone)]
pub struct ListViewState {
    pub cursor: usize,
    pub scroll_offset: usize,
}

impl Default for ListViewState {
    fn default() -> (s: Self)
        ensures
            s.cursor == 0,
            s.scroll_offset == 0,
    {
        Self::new()
    }
}

impl ListViewState {
    /// A list view with the cursor and the scroll offset on the first row.
    pub fn new() -> (s: Self)
        ensures
            s.cursor == 0,
            s.scroll_offset == 0,
    {
        ListViewState { cursor: 0, scroll_offset: 0 }
    }
}

/// Cursor and scroll position of the tree view, and the directories shown expanded.
#[derive(Debug, Clone)]
pub struct TreeViewState {
    pub cursor: usize,
    pub scroll_offset: usize,
    pub expanded: PathSet,
}

impl Default for TreeViewState {
    fn default() -> (s: Self)
        ensures
            s.cursor == 0,
            s.scroll_offset == 0,
            s.expanded@ == Set::<Seq<Seq<char>>>::empty(),
    {
        Self::new()
    }
}

impl TreeViewState {
    /// A tree view with the cursor on the first row and no directory expanded.
    pub fn new() -> (s: Self)
        ensures
            s.cursor == 0,
            s.scroll_offset == 0,
            s.expanded@ == Set::<Seq<Seq<char>>>::empty(),
    {
        TreeViewState { cursor: 0, scroll_offset: 0, expanded: PathSet::new() }
    }
}

/// A view as values: which view is active, its cursor and scroll offset, and for a tree
/// the components of the expanded directories.
pub enum ViewModel {
    List { cursor: usize, scroll: usize },
    Tree { cursor: usize, scroll: usize, expanded: Set<Seq<Seq<char>>> },
}

impl ViewModel {
    /// The cursor.
    pub open spec fn cursor(self) -> usize {
        match self {
            ViewModel::List { cursor, .. } => cursor,
            ViewModel::Tree { cursor, .. } => cursor,
        }
    }

    /// The scroll offset.
    pub open spec fn scroll(self) -> usize {
        match self {
            ViewModel::List { scroll, .. } => scroll,
            ViewModel::Tree { scroll, .. } => scroll,
        }
    }

    /// The same view with its cursor set to `c`.
    pub open spec fn set_cursor(self, c: usize) -> ViewModel {
        match self {
            ViewModel::List { scroll, .. } => ViewModel::List { cursor: c, scroll },
            ViewModel::Tree { scroll, expanded, .. } => ViewModel::Tree { cursor: c, scroll, expanded },
        }
    }

    /// The same view with its scroll offset set to `o`.
    pub open spec fn set_scroll(self, o: usize) -> ViewModel {
        match self {
            ViewModel::List { cursor, .. } => ViewModel::List { cursor, scroll: o },
            ViewModel::Tree { cursor, expanded, .. } => ViewModel::Tree { cursor, scroll: o, expanded },
        }
    }

    /// The other kind of view, fresh: cursor and scroll offset at the top, nothing expanded.
    pub open spec fn toggled(self) -> ViewModel {
        match self {
            ViewModel::List { .. } => ViewModel::Tree { cursor: 0, scroll: 0, expanded: Set::empty() },
            ViewModel::Tree { .. } => ViewModel::List { cursor: 0, scroll: 0 },
        }
    }
}

/// The active view of the picker.
#[derive(Debug, Clone)]
pub enum ViewState {
    List(ListViewState),
    Tree(TreeViewState),
}

impl View for ViewState {
    type V = ViewModel;

    open spec fn view(&self) -> ViewModel {
        match self {
            ViewState::List(s) => ViewModel::List { cursor: s.cursor, scroll: s.scroll_offset },
            ViewState::Tree(s) => ViewModel::Tree { cursor: s.cursor, scroll: s.scroll_offset, expanded: s.expanded@ },
        }
    }
}

impl ViewState {
    /// The cursor of whichever view is active.
    pub open spec fn cursor_of(self) -> usize {
        match self {
            ViewState::List(s) => s.cursor,
            ViewState::Tree(s) => s.cursor,
        }
    }

    /// The scroll offset of whichever view is active.
    pub open spec fn scroll_of(self) -> usize {
        match self {
            ViewState::List(s) => s.scroll_offset,
            ViewState::Tree(s) => s.scroll_offset,
        }
    }

    /// The same view with its cursor set to `c`.
    pub open spec fn with_cursor(self, c: usize) -> ViewState {
        match self {
            ViewState::List(s) => ViewState::List(ListViewState { cursor: c, ..s }),
            ViewState::Tree(s) => ViewState::Tree(TreeViewState { cursor: c, ..s }),
        }
    }

    /// The same view with its scroll offset set to `o`.
    pub open spec fn with_scroll(self, o: usize) -> ViewState {
        match self {
            ViewState::List(s) => ViewState::List(ListViewState { scroll_offset: o, ..s }),
            ViewState::Tree(s) => ViewState::Tree(TreeViewState { scroll_offset: o, ..s }),
        }
    }

    /// Whether `after` is what switching away from `self` gives: the other kind of view,
    /// with the cursor and the scroll offset at the top and, for a tree, nothing expanded.
    pub open spec fn switches_to(self, after: ViewState) -> bool {
        match self {
            ViewState::List(_) => after matches ViewState::Tree(t) && t.cursor == 0 && t.scroll_offset == 0
                && t.expanded@ == Set::<Seq<Seq<char>>>::empty(),
            ViewState::Tree(_) => after matches ViewState::List(l) && l.cursor == 0 && l.scroll_offset == 0,
        }
    }

    /// Switches between the list and the tree view; the view switched to starts afresh.
    pub fn toggle(self) -> (r: Self)
        ensures
            self.switches_to(r),
    {
        match self {
            ViewState::List(_) => ViewState::Tree(TreeViewState::new()),
            ViewState::Tree(_) => ViewState::List(ListViewState::new()),
        }
    }

    /// The cursor of the active view.
    pub fn cursor(&self) -> (r: usize)
        ensures
            r == self.cursor_of(),
    {
        match self {
            ViewState::List(s) => s.cursor,
            ViewState::Tree(s) => s.cursor,
        }
    }

    /// The cursor of the active view, to be written through.
    pub fn cursor_mut(&mut self) -> (r: &mut usize)
        ensures
            *r == old(self).cursor_of(),
            *final(self) == old(self).with_cursor(*final(r)),
    {
        match self {
            ViewState::List(s) => &mut s.cursor,
            ViewState::Tree(s) => &mut s.cursor,
        }
    }

    /// The scroll offset of the active view.
    pub fn scroll_offset(&self) -> (r: usize)
        ensures
            r == self.scroll_of(),
    {
        match self {
            ViewState::List(s) => s.scroll_offset,
            ViewState::Tree(s) => s.scroll_offset,
        }
    }

    /// The scroll offset of the active view, to be written through.
    pub fn scroll_offset_mut(&mut self) -> (r: &mut usize)
        ensures
            *r == old(self).scroll_of(),
            *final(self) == old(self).with_scroll(*final(r)),
    {
        match self {
            ViewState::List(s) => &mut s.scroll_offset,
            ViewState::Tree(s) => &mut s.scroll_offset,
        }
    }
}

/// The view functions agree with the view's values: setting the cursor or the scroll
/// offset, and switching views.
pub proof fn lemma_view_model(v: ViewState, w: ViewState, n: usize)
    ensures
        v@.cursor() == v.cursor_of(),
        v@.scroll() == v.scroll_of(),
        v.with_cursor(n)@ == v@.set_cursor(n),
        v.with_scroll(n)@ == v@.set_scroll(n),
        v.switches_to(w) ==> w@ == v@.toggled(),
{
}

/// Switching views twice comes back to the kind of view one started from, afresh.
pub proof fn lemma_toggle_twice(a: ViewState, b: ViewState, c: ViewState)
    requires
        a.switches_to(b),
        b.switches_to(c),
    ensures
        a is List ==> (c matches ViewState::List(l) && l.cursor == 0 && l.scroll_offset == 0),
        a is Tree ==> (c matches ViewState::Tree(t) && t.cursor == 0 && t.scroll_offset == 0
            && t.expanded@ == Set::<Seq<Seq<char>>>::empty()),
{
}

/// What is written through the cursor is what the cursor then reads, and nothing else of
/// the view changes; likewise for the scroll offset.
pub proof fn lemma_write_then_read(v: ViewState, n: usize)
    ensures
        v.with_cursor(n).cursor_of() == n,
        v.with_cursor(n).scroll_of() == v.scroll_of(),
        v.with_cursor(n) is List <==> v is List,
        v.with_scroll(n).scroll_of() == n,
        v.with_scroll(n).cursor_of() == v.cursor_of(),
        v.with_scroll(n) is List <==> v is List,
        v.with_cursor(v.cursor_of()) == v,
        v.with_scroll(v.scroll_of()) == v,
{
}

} // verus!
