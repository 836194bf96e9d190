use vstd::prelude::*;

use super::TreeViewState;
use crate::entry::{Entry, EntryKind};
use crate::path::{components, path_components, same_strings, strings_view};

verus! {

/// One row of the tree view: an entry and how deep it is nested under the root.
#[derive(Debug)]
pub struct TreeEntry {
    pub entry: Entry,
    pub depth: usize,
}

impl Clone for TreeEntry {
    fn clone(&self) -> (r: Self)
        ensures
            r == *self,
    {
        TreeEntry { entry: self.entry.clone(), depth: self.depth }
    }
}

/// The entries of one directory, as read from the file system.
#[derive(Debug)]
pub struct DirContents {
    pub dir: String,
    pub entries: Vec<Entry>,
}

/// The contents of the directories that a tree may show, read beforehand, each found by
/// its path's components. A directory added later hides what was added before for the
/// same path; a directory never added reads as empty.
#[derive(Debug)]
pub struct DirListing {
    dirs: Vec<DirContents>,
}

/// How many components path `p` has.
pub open spec fn path_depth(p: Seq<char>) -> nat {
    components(p).len()
}

/// The entries listed in `dirs` for the directory with components `key`: those of the
/// first record for it.
pub open spec fn first_listed(dirs: Seq<DirContents>, key: Seq<Seq<char>>) -> Seq<Entry>
    decreases dirs.len(),
{
    if dirs.len() == 0 {
        Seq::empty()
    } else if components(dirs[0].dir@) == key {
        dirs[0].entries@
    } else {
        first_listed(dirs.drop_first(), key)
    }
}

/// One more than the most components of a directory recorded in `dirs`.
pub open spec fn path_bound(dirs: Seq<DirContents>) -> nat
    decreases dirs.len(),
{
    if dirs.len() == 0 {
        0
    } else {
        let rest = path_bound(dirs.drop_first());
        let here = path_depth(dirs[0].dir@) + 1;
        if here < rest {
            rest
        } else {
            here
        }
    }
}

/// Every entry of the record lies strictly below its directory: its path has more components.
pub open spec fn entries_below(c: DirContents) -> bool {
    &&& path_depth(c.dir@) < usize::MAX
    &&& forall|k: int| 0 <= k < c.entries@.len() ==> path_depth(c.dir@) < path_depth(#[trigger] c.entries@[k].path@)
}

/// Records an entry and the depth it is shown at.
pub open spec fn row_of(e: Entry, depth: nat) -> (Entry, nat) {
    (e, depth)
}

/// The rows that a tree view shows of a list of tree entries.
pub open spec fn rows_view(v: Seq<TreeEntry>) -> Seq<(Entry, nat)> {
    v.map_values(|t: TreeEntry| (t.entry, t.depth as nat))
}

impl DirListing {
    /// Every recorded entry lies below its directory. Every listing has this property:
    /// `use_type_invariant` gives it for any listing at hand.
    #[verifier::type_invariant]
    pub closed spec fn well_formed(self) -> bool {
        forall|i: int| 0 <= i < self.dirs.len() ==> entries_below(#[trigger] self.dirs[i])
    }

    /// The entries that the listing holds for directory `d`.
    pub closed spec fn entries_of(self, d: Seq<char>) -> Seq<Entry> {
        first_listed(self.dirs@, components(d))
    }

    /// One more than the most components of a directory the listing holds.
    pub closed spec fn bound(self) -> nat {
        path_bound(self.dirs@)
    }

    /// How far a directory is from the bound: what the nesting of a tree can still use up.
    pub closed spec fn room(self, d: Seq<char>) -> nat {
        if path_depth(d) < self.bound() {
            (self.bound() - path_depth(d)) as nat
        } else {
            0
        }
    }

    /// A listing that holds no directory.
    pub fn new() -> (l: Self)
        ensures
            forall|d: Seq<char>| #[trigger] l.entries_of(d) == Seq::<Entry>::empty(),
    {
        DirListing { dirs: Vec::new() }
    }

    /// Records `entries` as the contents of `dir`. Refused, leaving the listing as it
    /// was, when some entry's path has no more components than `dir`, or `dir` has
    /// `usize::MAX` components.
    pub fn add(&mut self, dir: String, entries: Vec<Entry>) -> (ok: bool)
        ensures
            ok == entries_below(DirContents { dir, entries }),
            ok ==> forall|d: Seq<char>|
                #[trigger] final(self).entries_of(d) == if components(d) == components(dir@) {
                    entries@
                } else {
                    old(self).entries_of(d)
                },
            !ok ==> forall|d: Seq<char>| #[trigger] final(self).entries_of(d) == old(self).entries_of(d),
    {
        proof {
            use_type_invariant(&*self);
        }
        let dir_len = path_components(&dir).len();
        if dir_len == usize::MAX {
            return false;
        }
        let mut k: usize = 0;
        while k < entries.len()
            invariant
                k <= entries.len(),
                dir_len == path_depth(dir@),
                forall|j: int| 0 <= j < k ==> path_depth(dir@) < path_depth(#[trigger] entries@[j].path@),
            decreases entries.len() - k,
        {
            let len = path_components(&entries[k].path).len();
            if len <= dir_len {
                let ghost c = DirContents { dir, entries };
                assert(c.entries@[k as int] == entries@[k as int]);
                assert(!(path_depth(c.dir@) < path_depth(c.entries@[k as int].path@)));
                return false;
            }
            k = k + 1;
        }
        let ghost old_dirs = self.dirs@;
        let mut dirs: Vec<DirContents> = Vec::new();
        std::mem::swap(&mut dirs, &mut self.dirs);
        dirs.insert(0, DirContents { dir, entries });
        assert(dirs@.drop_first() =~= old_dirs);
        self.dirs = dirs;
        true
    }

    /// The index of the first record for `d`, if there is one.
    fn find(&self, d: &String) -> (r: Option<usize>)
        ensures
            match r {
                Some(i) => i < self.dirs.len() && self.entries_of(d@) == self.dirs@[i as int].entries@,
                None => self.entries_of(d@) == Seq::<Entry>::empty(),
            },
    {
        let key = path_components(d);
        let mut i: usize = 0;
        assert(self.dirs@.skip(0) =~= self.dirs@);
        while i < self.dirs.len()
            invariant
                i <= self.dirs.len(),
                strings_view(key@) == components(d@),
                first_listed(self.dirs@, components(d@)) == first_listed(self.dirs@.skip(i as int), components(d@)),
            decreases self.dirs.len() - i,
        {
            proof {
                let rest = self.dirs@.skip(i as int);
                assert(rest.drop_first() =~= self.dirs@.skip(i + 1));
                assert(rest[0] == self.dirs@[i as int]);
            }
            if same_strings(&path_components(&self.dirs[i].dir), &key) {
                return Some(i);
            }
            i = i + 1;
        }
        None
    }
}

/// A directory that has entries in the listing lies below its bound.
proof fn lemma_listed_below_bound(dirs: Seq<DirContents>, d: Seq<Seq<char>>)
    requires
        first_listed(dirs, d).len() > 0,
    ensures
        d.len() + 1 <= path_bound(dirs),
    decreases dirs.len(),
{
    if dirs.len() > 0 && components(dirs[0].dir@) != d {
        lemma_listed_below_bound(dirs.drop_first(), d);
    }
}

/// Under the listing's invariant, each listed entry's path is longer than its directory's.
proof fn lemma_listed_entries_below(dirs: Seq<DirContents>, d: Seq<Seq<char>>, k: int)
    requires
        forall|i: int| 0 <= i < dirs.len() ==> entries_below(#[trigger] dirs[i]),
        0 <= k < first_listed(dirs, d).len(),
    ensures
        d.len() < path_depth(first_listed(dirs, d)[k].path@),
        d.len() < usize::MAX,
    decreases dirs.len(),
{
    if dirs.len() > 0 {
        assert(entries_below(dirs[0]));
        if components(dirs[0].dir@) == d {
            assert(first_listed(dirs, d) == dirs[0].entries@);
            assert(path_depth(dirs[0].dir@) < path_depth(dirs[0].entries@[k].path@));
        } else {
            assert forall|i: int| 0 <= i < dirs.drop_first().len() implies entries_below(
                #[trigger] dirs.drop_first()[i],
            ) by {
                assert(dirs.drop_first()[i] == dirs[i + 1]);
            }
            lemma_listed_entries_below(dirs.drop_first(), d, k);
        }
    }
}

/// The bound is at most `usize::MAX` under the listing's invariant.
proof fn lemma_bound_fits(dirs: Seq<DirContents>)
    requires
        forall|i: int| 0 <= i < dirs.len() ==> entries_below(#[trigger] dirs[i]),
    ensures
        path_bound(dirs) <= usize::MAX,
    decreases dirs.len(),
{
    if dirs.len() > 0 {
        assert(entries_below(dirs[0]));
        assert forall|i: int| 0 <= i < dirs.drop_first().len() implies entries_below(
            #[trigger] dirs.drop_first()[i],
        ) by {
            assert(dirs.drop_first()[i] == dirs[i + 1]);
        }
        lemma_bound_fits(dirs.drop_first());
    }
}

/// The rows that the tree shows for the entries of `dir` from the `i`-th on, at `depth`:
/// each entry, followed, if it is an expanded directory, by the rows of its own contents
/// one level deeper.
pub open spec fn tree_rows_from(
    listing: DirListing,
    expanded: Set<Seq<Seq<char>>>,
    dir: Seq<char>,
    depth: nat,
    i: nat,
) -> Seq<(Entry, nat)>
    decreases listing.room(dir), listing.entries_of(dir).len() - i,
{
    let es = listing.entries_of(dir);
    if i >= es.len() {
        Seq::empty()
    } else {
        let e = es[i as int];
        let below = if e.kind == EntryKind::Directory && expanded.contains(components(e.path@))
            && path_depth(dir) < path_depth(e.path@) {
            proof {
                lemma_room_shrinks(listing, dir);
            }
            tree_rows_from(listing, expanded, e.path@, depth + 1, 0)
        } else {
            Seq::empty()
        };
        seq![row_of(e, depth)] + below + tree_rows_from(listing, expanded, dir, depth, i + 1)
    }
}

/// A directory with entries has room left, and a path with more components has less of it.
pub proof fn lemma_room_shrinks(listing: DirListing, dir: Seq<char>)
    requires
        listing.entries_of(dir).len() > 0,
    ensures
        listing.room(dir) > 0,
        forall|p: Seq<char>| path_depth(dir) < path_depth(p) ==> #[trigger] listing.room(p) < listing.room(dir),
{
    lemma_listed_below_bound(listing.dirs@, components(dir));
}

/// The set with the path of components `p` taken out if it was in, and put in if it was not.
pub open spec fn toggled_path(s: Set<Seq<Seq<char>>>, p: Seq<Seq<char>>) -> Set<Seq<Seq<char>>> {
    if s.contains(p) {
        s.remove(p)
    } else {
        s.insert(p)
    }
}

/// Toggling a path twice gives back the set one started from; one toggle flips whether
/// that path is in and leaves every other path as it was.
pub proof fn lemma_toggle_path(s: Set<Seq<Seq<char>>>, p: Seq<Seq<char>>, q: Seq<Seq<char>>)
    ensures
        toggled_path(toggled_path(s, p), p) == s,
        toggled_path(s, p).contains(p) == !s.contains(p),
        q != p ==> toggled_path(s, p).contains(q) == s.contains(q),
{
    assert(toggled_path(toggled_path(s, p), p) =~= s);
}

/// The rows that the tree shows under `root`, its own entries at depth 0.
pub open spec fn tree_rows(listing: DirListing, expanded: Set<Seq<Seq<char>>>, root: Seq<char>) -> Seq<
    (Entry, nat),
> {
    tree_rows_from(listing, expanded, root, 0, 0)
}

/// The rows of the entries of `root` from the `i`-th on, when nothing is expanded.
proof fn lemma_flat_from(listing: DirListing, root: Seq<char>, i: nat)
    requires
        i <= listing.entries_of(root).len(),
    ensures
        tree_rows_from(listing, Set::<Seq<Seq<char>>>::empty(), root, 0, i) == listing.entries_of(root).skip(i as int).map_values(
            |e: Entry| row_of(e, 0),
        ),
    decreases listing.entries_of(root).len() - i,
{
    let es = listing.entries_of(root);
    if i == es.len() {
        assert(es.skip(i as int).map_values(|e: Entry| row_of(e, 0)) =~= Seq::<(Entry, nat)>::empty());
    } else {
        lemma_flat_from(listing, root, i + 1);
        assert(es.skip(i as int).map_values(|e: Entry| row_of(e, 0)) =~= seq![row_of(es[i as int], 0)]
            + es.skip((i + 1) as int).map_values(|e: Entry| row_of(e, 0)));
        assert(tree_rows_from(listing, Set::<Seq<Seq<char>>>::empty(), root, 0, i) =~= seq![row_of(es[i as int], 0)]
            + Seq::<(Entry, nat)>::empty() + tree_rows_from(listing, Set::<Seq<Seq<char>>>::empty(), root, 0, i + 1));
    }
}

/// With no directory expanded the tree is flat: the root's entries, in their order,
/// each at depth 0.
pub proof fn lemma_flat_when_nothing_expanded(listing: DirListing, root: Seq<char>)
    ensures
        tree_rows(listing, Set::<Seq<Seq<char>>>::empty(), root) == listing.entries_of(root).map_values(|e: Entry| row_of(e, 0)),
{
    lemma_flat_from(listing, root, 0);
    assert(listing.entries_of(root).skip(0) =~= listing.entries_of(root));
}

/// Expanding a directory listed at position `i` of `dir` inserts, right after its own
/// row, the rows of its contents one level deeper; collapsed, it is followed directly by
/// the rows of the entries after it.
pub proof fn lemma_expand_inserts_subtree(
    listing: DirListing,
    expanded: Set<Seq<Seq<char>>>,
    dir: Seq<char>,
    depth: nat,
    i: nat,
)
    requires
        i < listing.entries_of(dir).len(),
        listing.entries_of(dir)[i as int].kind == EntryKind::Directory,
        path_depth(dir) < path_depth(listing.entries_of(dir)[i as int].path@),
    ensures
        ({
            let e = listing.entries_of(dir)[i as int];
            let p = components(e.path@);
            let opened = expanded.insert(p);
            let closed = expanded.remove(p);
            &&& tree_rows_from(listing, opened, dir, depth, i) == seq![row_of(e, depth)]
                + tree_rows_from(listing, opened, e.path@, depth + 1, 0)
                + tree_rows_from(listing, opened, dir, depth, i + 1)
            &&& tree_rows_from(listing, closed, dir, depth, i) == seq![row_of(e, depth)]
                + tree_rows_from(listing, closed, dir, depth, i + 1)
        }),
{
    let e = listing.entries_of(dir)[i as int];
    let p = components(e.path@);
    assert(expanded.insert(p).contains(p));
    assert(!expanded.remove(p).contains(p));
    assert(tree_rows_from(listing, expanded.remove(p), dir, depth, i) =~= seq![row_of(e, depth)]
        + Seq::<(Entry, nat)>::empty() + tree_rows_from(listing, expanded.remove(p), dir, depth, i + 1));
}

/// The rows of the tree under the row `r` of a directory with components `p`, one level
/// deeper than `r`; nothing under any other row.
pub open spec fn subtree_under(
    listing: DirListing,
    expanded: Set<Seq<Seq<char>>>,
    p: Seq<Seq<char>>,
    r: (Entry, nat),
) -> Seq<(Entry, nat)> {
    if r.0.kind == EntryKind::Directory && components(r.0.path@) == p {
        tree_rows_from(listing, expanded, r.0.path@, r.1 + 1, 0)
    } else {
        Seq::empty()
    }
}

/// `rows` with the rows of the directory `p` inserted right after each row of it.
pub open spec fn with_subtrees(
    listing: DirListing,
    expanded: Set<Seq<Seq<char>>>,
    p: Seq<Seq<char>>,
    rows: Seq<(Entry, nat)>,
) -> Seq<(Entry, nat)>
    decreases rows.len(),
{
    if rows.len() == 0 {
        Seq::empty()
    } else {
        seq![rows[0]] + subtree_under(listing, expanded, p, rows[0]) + with_subtrees(
            listing,
            expanded,
            p,
            rows.drop_first(),
        )
    }
}

/// Whether some row of `rows` is a directory with components `p`.
pub open spec fn shows_dir(rows: Seq<(Entry, nat)>, p: Seq<Seq<char>>) -> bool {
    exists|k: int| 0 <= k < rows.len() && #[trigger] rows[k].0.kind == EntryKind::Directory
        && components(rows[k].0.path@) == p
}

proof fn lemma_with_subtrees_concat(
    listing: DirListing,
    expanded: Set<Seq<Seq<char>>>,
    p: Seq<Seq<char>>,
    a: Seq<(Entry, nat)>,
    b: Seq<(Entry, nat)>,
)
    ensures
        with_subtrees(listing, expanded, p, a + b) == with_subtrees(listing, expanded, p, a)
            + with_subtrees(listing, expanded, p, b),
    decreases a.len(),
{
    if a.len() == 0 {
        assert(a + b =~= b);
        assert(with_subtrees(listing, expanded, p, a) + with_subtrees(listing, expanded, p, b)
            =~= with_subtrees(listing, expanded, p, b));
    } else {
        assert((a + b).drop_first() =~= a.drop_first() + b);
        assert((a + b)[0] == a[0]);
        lemma_with_subtrees_concat(listing, expanded, p, a.drop_first(), b);
        let h = seq![a[0]] + subtree_under(listing, expanded, p, a[0]);
        assert(with_subtrees(listing, expanded, p, a + b) =~= h + (with_subtrees(listing, expanded, p, a.drop_first())
            + with_subtrees(listing, expanded, p, b)));
    }
}

proof fn lemma_with_subtrees_one(
    listing: DirListing,
    expanded: Set<Seq<Seq<char>>>,
    p: Seq<Seq<char>>,
    r: (Entry, nat),
)
    ensures
        with_subtrees(listing, expanded, p, seq![r]) == seq![r] + subtree_under(listing, expanded, p, r),
{
    let one = seq![r];
    assert(one.drop_first() =~= Seq::<(Entry, nat)>::empty());
    assert(with_subtrees(listing, expanded, p, one.drop_first()) == Seq::<(Entry, nat)>::empty());
    assert(with_subtrees(listing, expanded, p, one) =~= seq![r] + subtree_under(listing, expanded, p, r)
        + Seq::<(Entry, nat)>::empty());
}

proof fn lemma_with_subtrees_none(
    listing: DirListing,
    expanded: Set<Seq<Seq<char>>>,
    p: Seq<Seq<char>>,
    rows: Seq<(Entry, nat)>,
)
    requires
        !shows_dir(rows, p),
    ensures
        with_subtrees(listing, expanded, p, rows) == rows,
    decreases rows.len(),
{
    if rows.len() > 0 {
        assert(!(rows[0].0.kind == EntryKind::Directory && components(rows[0].0.path@) == p));
        assert(!shows_dir(rows.drop_first(), p)) by {
            if shows_dir(rows.drop_first(), p) {
                let k = choose|k: int| 0 <= k < rows.drop_first().len() && #[trigger] rows.drop_first()[k].0.kind
                    == EntryKind::Directory && components(rows.drop_first()[k].0.path@) == p;
                assert(rows[k + 1] == rows.drop_first()[k]);
            }
        }
        lemma_with_subtrees_none(listing, expanded, p, rows.drop_first());
        assert(rows =~= seq![rows[0]] + rows.drop_first());
    }
}

proof fn lemma_expand_from(
    listing: DirListing,
    expanded: Set<Seq<Seq<char>>>,
    p: Seq<Seq<char>>,
    dir: Seq<char>,
    depth: nat,
    i: nat,
)
    requires
        listing.well_formed(),
        !expanded.contains(p),
    ensures
        tree_rows_from(listing, expanded.insert(p), dir, depth, i) == with_subtrees(
            listing,
            expanded.insert(p),
            p,
            tree_rows_from(listing, expanded, dir, depth, i),
        ),
    decreases listing.room(dir), listing.entries_of(dir).len() - i,
{
    let opened = expanded.insert(p);
    let es = listing.entries_of(dir);
    if i < es.len() {
        let e = es[i as int];
        lemma_listed_entries_below(listing.dirs@, components(dir), i as int);
        lemma_room_shrinks(listing, dir);
        let row = row_of(e, depth);
        let below = if e.kind == EntryKind::Directory && expanded.contains(components(e.path@)) {
            tree_rows_from(listing, expanded, e.path@, depth + 1, 0)
        } else {
            Seq::empty()
        };
        let rest = tree_rows_from(listing, expanded, dir, depth, i + 1);
        assert(tree_rows_from(listing, expanded, dir, depth, i) == seq![row] + below + rest);
        lemma_expand_from(listing, expanded, p, dir, depth, i + 1);
        lemma_with_subtrees_concat(listing, opened, p, seq![row] + below, rest);
        lemma_with_subtrees_concat(listing, opened, p, seq![row], below);
        lemma_with_subtrees_one(listing, opened, p, row);
        if e.kind == EntryKind::Directory && expanded.contains(components(e.path@)) {
            lemma_expand_from(listing, expanded, p, e.path@, depth + 1, 0);
            assert(subtree_under(listing, opened, p, row) =~= Seq::<(Entry, nat)>::empty());
        } else {
            assert(with_subtrees(listing, opened, p, below) =~= Seq::<(Entry, nat)>::empty());
        }
    } else {
        assert(with_subtrees(listing, opened, p, Seq::<(Entry, nat)>::empty()) =~= Seq::<(Entry, nat)>::empty());
    }
}

/// Expanding a collapsed directory with components `p` inserts, right after each row of it
/// in the tree, the rows of its contents one level deeper, and leaves every other row.
/// In particular, when `p` is shown once, at row `k`, the tree becomes the rows up to `k`,
/// the subtree of `p`, then the rows after `k`; when it is not shown, the tree is unchanged.
pub proof fn lemma_expand_inserts_subtree_in_tree(
    listing: DirListing,
    expanded: Set<Seq<Seq<char>>>,
    p: Seq<Seq<char>>,
    root: Seq<char>,
    k: int,
)
    requires
        listing.well_formed(),
        !expanded.contains(p),
    ensures
        ({
            let before = tree_rows(listing, expanded, root);
            let opened = toggled_path(expanded, p);
            let after = tree_rows(listing, opened, root);
            &&& after == with_subtrees(listing, opened, p, before)
            &&& !shows_dir(before, p) ==> after == before
            &&& (0 <= k < before.len() && before[k].0.kind == EntryKind::Directory && components(before[k].0.path@)
                == p && (forall|j: int|
                0 <= j < before.len() && j != k ==> !(#[trigger] before[j].0.kind == EntryKind::Directory
                    && components(before[j].0.path@) == p))) ==> after == before.take(k + 1)
                + tree_rows_from(listing, opened, before[k].0.path@, before[k].1 + 1, 0) + before.skip(k + 1)
        }),
{
    let before = tree_rows(listing, expanded, root);
    let opened = toggled_path(expanded, p);
    assert(opened == expanded.insert(p));
    lemma_expand_from(listing, expanded, p, root, 0, 0);
    if !shows_dir(before, p) {
        lemma_with_subtrees_none(listing, opened, p, before);
    }
    if 0 <= k < before.len() && before[k].0.kind == EntryKind::Directory && components(before[k].0.path@) == p
        && (forall|j: int|
        0 <= j < before.len() && j != k ==> !(#[trigger] before[j].0.kind == EntryKind::Directory && components(
            before[j].0.path@,
        ) == p)) {
        let head = before.take(k);
        let tail = before.skip(k + 1);
        assert(before =~= head + seq![before[k]] + tail);
        assert(!shows_dir(head, p)) by {
            if shows_dir(head, p) {
                let j = choose|j: int| 0 <= j < head.len() && #[trigger] head[j].0.kind == EntryKind::Directory
                    && components(head[j].0.path@) == p;
                assert(head[j] == before[j]);
            }
        }
        assert(!shows_dir(tail, p)) by {
            if shows_dir(tail, p) {
                let j = choose|j: int| 0 <= j < tail.len() && #[trigger] tail[j].0.kind == EntryKind::Directory
                    && components(tail[j].0.path@) == p;
                assert(tail[j] == before[k + 1 + j]);
            }
        }
        lemma_with_subtrees_concat(listing, opened, p, head + seq![before[k]], tail);
        lemma_with_subtrees_concat(listing, opened, p, head, seq![before[k]]);
        lemma_with_subtrees_none(listing, opened, p, head);
        lemma_with_subtrees_none(listing, opened, p, tail);
        lemma_with_subtrees_one(listing, opened, p, before[k]);
        assert(before.take(k + 1) =~= head + seq![before[k]]);
    }
}

/// The rows of `rows` at depth `d`, in order.
pub open spec fn rows_at_depth(rows: Seq<(Entry, nat)>, d: nat) -> Seq<(Entry, nat)>
    decreases rows.len(),
{
    if rows.len() == 0 {
        Seq::empty()
    } else {
        (if rows[0].1 == d {
            seq![rows[0]]
        } else {
            Seq::empty()
        }) + rows_at_depth(rows.drop_first(), d)
    }
}

proof fn lemma_rows_at_depth_concat(a: Seq<(Entry, nat)>, b: Seq<(Entry, nat)>, d: nat)
    ensures
        rows_at_depth(a + b, d) == rows_at_depth(a, d) + rows_at_depth(b, d),
    decreases a.len(),
{
    if a.len() == 0 {
        assert(a + b =~= b);
        assert(rows_at_depth(a, d) + rows_at_depth(b, d) =~= rows_at_depth(b, d));
    } else {
        assert((a + b).drop_first() =~= a.drop_first() + b);
        assert((a + b)[0] == a[0]);
        lemma_rows_at_depth_concat(a.drop_first(), b, d);
        let h = if a[0].1 == d {
            seq![a[0]]
        } else {
            Seq::<(Entry, nat)>::empty()
        };
        assert(rows_at_depth(a + b, d) =~= h + (rows_at_depth(a.drop_first(), d) + rows_at_depth(b, d)));
    }
}

proof fn lemma_rows_at_depth_none(rows: Seq<(Entry, nat)>, d: nat)
    requires
        forall|k: int| 0 <= k < rows.len() ==> #[trigger] rows[k].1 > d,
    ensures
        rows_at_depth(rows, d) == Seq::<(Entry, nat)>::empty(),
    decreases rows.len(),
{
    if rows.len() > 0 {
        assert forall|k: int| 0 <= k < rows.drop_first().len() implies #[trigger] rows.drop_first()[k].1 > d by {
            assert(rows.drop_first()[k] == rows[k + 1]);
        }
        lemma_rows_at_depth_none(rows.drop_first(), d);
        assert(rows[0].1 > d);
        assert(rows_at_depth(rows, d) =~= Seq::<(Entry, nat)>::empty() + Seq::<(Entry, nat)>::empty());
    }
}

/// Every row of a directory's part of the tree lies at its depth or deeper.
pub proof fn lemma_rows_not_shallower(
    listing: DirListing,
    expanded: Set<Seq<Seq<char>>>,
    dir: Seq<char>,
    depth: nat,
    i: nat,
)
    ensures
        forall|k: int|
            0 <= k < tree_rows_from(listing, expanded, dir, depth, i).len() ==> #[trigger] tree_rows_from(
                listing,
                expanded,
                dir,
                depth,
                i,
            )[k].1 >= depth,
    decreases listing.room(dir), listing.entries_of(dir).len() - i,
{
    let es = listing.entries_of(dir);
    if i < es.len() {
        let e = es[i as int];
        lemma_room_shrinks(listing, dir);
        let below = if e.kind == EntryKind::Directory && expanded.contains(components(e.path@)) && path_depth(dir)
            < path_depth(e.path@) {
            lemma_rows_not_shallower(listing, expanded, e.path@, depth + 1, 0);
            tree_rows_from(listing, expanded, e.path@, depth + 1, 0)
        } else {
            Seq::empty()
        };
        let rest = tree_rows_from(listing, expanded, dir, depth, i + 1);
        lemma_rows_not_shallower(listing, expanded, dir, depth, i + 1);
        let all = tree_rows_from(listing, expanded, dir, depth, i);
        assert(all == seq![row_of(e, depth)] + below + rest);
        assert forall|k: int| 0 <= k < all.len() implies #[trigger] all[k].1 >= depth by {
            if k == 0 {
            } else if k < 1 + below.len() {
                assert(all[k] == below[k - 1]);
            } else {
                assert(all[k] == rest[k - 1 - below.len()]);
            }
        }
    }
}

/// Every entry listed for a directory gets its own row, whatever its kind: the rows of a
/// directory's part of the tree at its own depth are its listed entries from the `i`-th
/// on, in order, at that depth; the rows of expanded subdirectories all lie deeper. So the
/// tree shows each directory it walks, at any depth, with all of its entries.
pub proof fn lemma_each_entry_has_a_row(
    listing: DirListing,
    expanded: Set<Seq<Seq<char>>>,
    dir: Seq<char>,
    depth: nat,
    i: nat,
)
    requires
        i <= listing.entries_of(dir).len(),
    ensures
        rows_at_depth(tree_rows_from(listing, expanded, dir, depth, i), depth) == listing.entries_of(dir).skip(
            i as int,
        ).map_values(|e: Entry| (e, depth)),
    decreases listing.entries_of(dir).len() - i,
{
    let es = listing.entries_of(dir);
    if i < es.len() {
        let e = es[i as int];
        lemma_room_shrinks(listing, dir);
        let below = if e.kind == EntryKind::Directory && expanded.contains(components(e.path@)) && path_depth(dir)
            < path_depth(e.path@) {
            lemma_rows_not_shallower(listing, expanded, e.path@, depth + 1, 0);
            tree_rows_from(listing, expanded, e.path@, depth + 1, 0)
        } else {
            Seq::empty()
        };
        let rest = tree_rows_from(listing, expanded, dir, depth, i + 1);
        assert(tree_rows_from(listing, expanded, dir, depth, i) == seq![row_of(e, depth)] + below + rest);
        lemma_each_entry_has_a_row(listing, expanded, dir, depth, i + 1);
        lemma_rows_at_depth_concat(seq![row_of(e, depth)] + below, rest, depth);
        lemma_rows_at_depth_concat(seq![row_of(e, depth)], below, depth);
        lemma_rows_at_depth_none(below, depth);
        let one = seq![row_of(e, depth)];
        assert(one.drop_first() =~= Seq::<(Entry, nat)>::empty());
        assert(rows_at_depth(one.drop_first(), depth) == Seq::<(Entry, nat)>::empty());
        assert(rows_at_depth(one, depth) =~= one + Seq::<(Entry, nat)>::empty());
        assert(es.skip(i as int).map_values(|e: Entry| (e, depth)) =~= one + es.skip((i + 1) as int).map_values(
            |e: Entry| (e, depth),
        ));
    } else {
        assert(es.skip(i as int).map_values(|e: Entry| (e, depth)) =~= Seq::<(Entry, nat)>::empty());
    }
}

impl TreeViewState {
    /// Expands `path` if it is collapsed, and collapses it if it is expanded.
    pub fn toggle_expand(&mut self, path: &String)
        ensures
            final(self).cursor == old(self).cursor,
            final(self).scroll_offset == old(self).scroll_offset,
            final(self).expanded@ == toggled_path(old(self).expanded@, components(path@)),
    {
        if !self.expanded.remove(path) {
            self.expanded.insert(path.clone());
        }
    }

    /// Whether `path` is shown expanded.
    pub fn is_expanded(&self, path: &String) -> (r: bool)
        ensures
            r == self.expanded@.contains(components(path@)),
    {
        self.expanded.contains(path)
    }

    /// The flat list of rows of the tree under `root`: the entries of each directory
    /// in the order listed, each expanded directory followed by its own rows one level deeper.
    pub fn build_tree_entries(&self, root: &String, listing: &DirListing) -> (r: Vec<TreeEntry>)
        ensures
            rows_view(r@) == tree_rows(*listing, self.expanded@, root@),
    {
        proof {
            use_type_invariant(listing);
            lemma_bound_fits(listing.dirs@);
        }
        let mut result: Vec<TreeEntry> = Vec::new();
        self.collect_entries(root, 0, listing, &mut result);
        assert(rows_view(result@) =~= Seq::<(Entry, nat)>::empty() + tree_rows(*listing, self.expanded@, root@));
        result
    }

    /// Appends the rows of `dir` at `depth` to `result`.
    fn collect_entries(&self, dir: &String, depth: usize, listing: &DirListing, result: &mut Vec<TreeEntry>)
        requires
            depth + listing.room(dir@) <= usize::MAX,
        ensures
            rows_view(final(result)@) == rows_view(old(result)@) + tree_rows_from(
                *listing,
                self.expanded@,
                dir@,
                depth as nat,
                0,
            ),
        decreases listing.room(dir@),
    {
        proof {
            use_type_invariant(listing);
        }
        let ghost start = rows_view(result@);
        let ghost expanded = self.expanded@;
        match listing.find(dir) {
            None => {
                assert(rows_view(result@) =~= start + Seq::<(Entry, nat)>::empty());
            },
            Some(idx) => {
                let entries = &listing.dirs[idx].entries;
                let n = entries.len();
                let mut i: usize = 0;
                while i < n
                    invariant
                        n == entries.len(),
                        entries@ == listing.entries_of(dir@),
                        i <= n,
                        depth + listing.room(dir@) <= usize::MAX,
                        expanded == self.expanded@,
                        forall|i: int| 0 <= i < listing.dirs.len() ==> entries_below(#[trigger] listing.dirs[i]),
                        rows_view(result@) + tree_rows_from(*listing, expanded, dir@, depth as nat, i as nat)
                            == start + tree_rows_from(*listing, expanded, dir@, depth as nat, 0),
                    decreases n - i,
                {
                    let e = &entries[i];
                    let ghost before = rows_view(result@);
                    proof {
                        lemma_listed_entries_below(listing.dirs@, components(dir@), i as int);
                        lemma_room_shrinks(*listing, dir@);
                    }
                    let is_dir = e.kind == EntryKind::Directory;
                    result.push(TreeEntry { entry: e.clone(), depth });
                    assert(rows_view(result@) =~= before + seq![row_of(*e, depth as nat)]);
                    if is_dir && self.is_expanded(&e.path) {
                        self.collect_entries(&e.path, depth + 1, listing, result);
                    }
                    proof {
                        let tail = tree_rows_from(*listing, expanded, dir@, depth as nat, (i + 1) as nat);
                        let below = if is_dir && expanded.contains(components(e.path@)) {
                            tree_rows_from(*listing, expanded, e.path@, (depth + 1) as nat, 0)
                        } else {
                            Seq::<(Entry, nat)>::empty()
                        };
                        assert(tree_rows_from(*listing, expanded, dir@, depth as nat, i as nat) == seq![
                            row_of(*e, depth as nat),
                        ] + below + tail);
                        assert(rows_view(result@) =~= before + seq![row_of(*e, depth as nat)] + below);
                        assert(before + (seq![row_of(*e, depth as nat)] + below + tail) =~= rows_view(
                            result@,
                        ) + tail);
                    }
                    i = i + 1;
                }
                assert(tree_rows_from(*listing, expanded, dir@, depth as nat, n as nat) =~= Seq::<
                    (Entry, nat),
                >::empty());
                assert(rows_view(result@) =~= rows_view(result@) + Seq::<(Entry, nat)>::empty());
            },
        }
    }
}

} // verus!
