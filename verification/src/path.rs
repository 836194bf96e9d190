use vstd::prelude::*;

verus! {

/// The pieces of `p` between its separators `/`, in order, empty pieces included.
pub open spec fn pieces(p: Seq<char>) -> Seq<Seq<char>>
    decreases p.len(),
{
    if p.len() == 0 {
        seq![Seq::empty()]
    } else {
        let s = pieces(p.drop_last());
        if p.last() == '/' {
            s.push(Seq::empty())
        } else {
            s.update(s.len() - 1, s.last().push(p.last()))
        }
    }
}

/// Whether a piece names something: it is neither empty nor `.`.
pub open spec fn is_named(piece: Seq<char>) -> bool {
    piece.len() > 0 && piece != seq!['.']
}

/// The pieces that name something, in order.
pub open spec fn named_pieces(ps: Seq<Seq<char>>) -> Seq<Seq<char>>
    decreases ps.len(),
{
    if ps.len() == 0 {
        Seq::empty()
    } else if is_named(ps.last()) {
        named_pieces(ps.drop_last()).push(ps.last())
    } else {
        named_pieces(ps.drop_last())
    }
}

/// The components of path `p`, by which two paths are the same path: a leading `/` is the
/// root component; repeated separators, a trailing separator and `.` pieces are dropped,
/// except a `.` that begins a relative path, which stays as its first component.
pub open spec fn components(p: Seq<char>) -> Seq<Seq<char>> {
    let ps = pieces(p);
    if p.len() > 0 && p[0] == '/' {
        seq![seq!['/']] + named_pieces(ps)
    } else if ps[0] == seq!['.'] {
        seq![seq!['.']] + named_pieces(ps)
    } else {
        named_pieces(ps)
    }
}

/// The character sequences of a list of strings.
pub open spec fn strings_view(v: Seq<String>) -> Seq<Seq<char>> {
    v.map_values(|s: String| s@)
}

/// The piece list after one more character.
proof fn lemma_pieces_step(p: Seq<char>, c: char)
    ensures
        pieces(p.push(c)) == if c == '/' {
            pieces(p).push(Seq::empty())
        } else {
            pieces(p).update(pieces(p).len() - 1, pieces(p).last().push(c))
        },
{
    assert(p.push(c).drop_last() =~= p);
}

/// Whether `piece` is the single character `.`.
fn is_dot(piece: &String) -> (r: bool)
    ensures
        r == (piece@ == seq!['.']),
{
    let len = piece.as_str().unicode_len();
    if len == 1 {
        let c = piece.as_str().get_char(0);
        assert(c == '.' ==> piece@ =~= seq!['.']);
        c == '.'
    } else {
        false
    }
}

/// Whether `piece` names something.
fn names_something(piece: &String) -> (r: bool)
    ensures
        r == is_named(piece@),
{
    piece.as_str().unicode_len() > 0 && !is_dot(piece)
}

/// Splits `p` into its components, as `components` describes them.
pub fn path_components(p: &String) -> (r: Vec<String>)
    ensures
        strings_view(r@) == components(p@),
{
    let n = p.as_str().unicode_len();
    let mut done: Vec<String> = Vec::new();
    let mut cur = String::new();
    let mut first_piece: Option<String> = None;
    let mut i: usize = 0;
    assert(p@.take(0) =~= Seq::<char>::empty());
    while i < n
        invariant
            n == p@.len(),
            i <= n,
            strings_view(done@).push(cur@) == pieces(p@.take(i as int)),
            first_piece matches Some(f) ==> i >= 1 && done@.len() >= 1 && f@ == done@[0]@,
            first_piece is None ==> done@.len() == 0,
        decreases n - i,
    {
        let c = p.as_str().get_char(i);
        proof {
            assert(p@.take(i + 1) =~= p@.take(i as int).push(c));
            lemma_pieces_step(p@.take(i as int), c);
        }
        if c == '/' {
            if first_piece.is_none() {
                first_piece = Some(cur.clone());
            }
            let finished = cur;
            cur = String::new();
            let ghost before = strings_view(done@);
            done.push(finished);
            assert(strings_view(done@) =~= before.push(finished@));
        } else {
            let ghost before = cur@;
            cur.push(c);
            assert(strings_view(done@).push(cur@) =~= strings_view(done@).push(before).update(
                done@.len() as int,
                before.push(c),
            ));
        }
        i = i + 1;
    }
    let ghost ps = pieces(p@);
    assert(p@.take(n as int) =~= p@);
    let mut named: Vec<String> = Vec::new();
    let mut k: usize = 0;
    assert(ps.take(0) =~= Seq::<Seq<char>>::empty());
    while k < done.len()
        invariant
            k <= done.len(),
            strings_view(done@).push(cur@) == ps,
            strings_view(named@) == named_pieces(ps.take(k as int)),
        decreases done.len() - k,
    {
        assert(done@[k as int]@ == ps[k as int]);
        proof {
            assert(ps.take(k + 1).drop_last() =~= ps.take(k as int));
        }
        if names_something(&done[k]) {
            let ghost before = strings_view(named@);
            named.push(done[k].clone());
            assert(strings_view(named@) =~= before.push(done@[k as int]@));
        }
        k = k + 1;
    }
    proof {
        assert(ps.take(k + 1).drop_last() =~= ps.take(k as int));
        assert(ps.take(k + 1) =~= ps);
    }
    if names_something(&cur) {
        let ghost before = strings_view(named@);
        named.push(cur.clone());
        assert(strings_view(named@) =~= before.push(cur@));
    }
    let mut r: Vec<String> = Vec::new();
    let rooted = n > 0 && p.as_str().get_char(0) == '/';
    let mut starts_with_dot = false;
    if !rooted {
        let first: &String = match &first_piece {
            Some(f) => f,
            None => &cur,
        };
        assert(first@ == ps[0]);
        starts_with_dot = is_dot(first);
    }
    if rooted {
        proof {
            reveal_strlit("/");
        }
        r.push(String::from_str("/"));
    } else if starts_with_dot {
        proof {
            reveal_strlit(".");
        }
        r.push(String::from_str("."));
    }
    let ghost head = strings_view(r@);
    let mut j: usize = 0;
    while j < named.len()
        invariant
            j <= named.len(),
            strings_view(r@) == head + strings_view(named@).take(j as int),
        decreases named.len() - j,
    {
        let ghost before = strings_view(r@);
        r.push(named[j].clone());
        assert(strings_view(r@) =~= before.push(named@[j as int]@));
        assert(strings_view(named@).take(j + 1) =~= strings_view(named@).take(j as int).push(named@[j as int]@));
        j = j + 1;
    }
    assert(strings_view(named@).take(named.len() as int) =~= strings_view(named@));
    proof {
        if rooted {
            assert(head[0] =~= seq!['/']);
            assert(head =~= seq![seq!['/']]);
        } else if starts_with_dot {
            assert(head[0] =~= seq!['.']);
            assert(head =~= seq![seq!['.']]);
        } else {
            assert(head =~= Seq::<Seq<char>>::empty());
        }
    }
    assert(strings_view(r@) =~= components(p@));
    r
}

/// Whether two lists of strings hold the same character sequences.
pub fn same_strings(a: &Vec<String>, b: &Vec<String>) -> (r: bool)
    ensures
        r == (strings_view(a@) == strings_view(b@)),
{
    if a.len() != b.len() {
        assert(strings_view(a@).len() != strings_view(b@).len());
        return false;
    }
    let mut i: usize = 0;
    while i < a.len()
        invariant
            i <= a.len(),
            a.len() == b.len(),
            forall|k: int| 0 <= k < i ==> a@[k]@ == b@[k]@,
        decreases a.len() - i,
    {
        if !(a[i] == b[i]) {
            assert(strings_view(a@)[i as int] != strings_view(b@)[i as int]);
            return false;
        }
        i = i + 1;
    }
    assert(strings_view(a@) =~= strings_view(b@));
    true
}

} // verus!
