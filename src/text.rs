//! Character-level helpers on strings: splitting at a separator, joining with
//! one, prefixes and substring search.
use vstd::prelude::*;

verus! {

/// The views of a sequence of strings.
pub open spec fn views(v: Seq<String>) -> Seq<Seq<char>> {
    v.map_values(|x: String| x@)
}

/// The fields of `s` between occurrences of `sep`, as `str::split` yields
/// them: there is always at least one, and empty fields are kept.
pub open spec fn split_on(s: Seq<char>, sep: char) -> Seq<Seq<char>>
    decreases s.len(),
{
    if s.len() == 0 {
        seq![Seq::<char>::empty()]
    } else {
        let prev = split_on(s.drop_last(), sep);
        if s.last() == sep {
            prev.push(Seq::<char>::empty())
        } else {
            prev.update(prev.len() - 1, prev.last().push(s.last()))
        }
    }
}

pub proof fn lemma_split_on_nonempty(s: Seq<char>, sep: char)
    ensures
        split_on(s, sep).len() >= 1,
    decreases s.len(),
{
    if s.len() > 0 {
        lemma_split_on_nonempty(s.drop_last(), sep);
    }
}

/// Splits `s` at every occurrence of `sep`.
pub fn split_str(s: &str, sep: char) -> (r: Vec<String>)
    ensures
        views(r@) == split_on(s@, sep),
{
    let n = s.unicode_len();
    let mut pieces: Vec<String> = Vec::new();
    let mut start: usize = 0;
    let mut i: usize = 0;
    assert(s@.take(0) =~= Seq::<char>::empty());
    assert(views(pieces@).push(s@.subrange(0, 0)) =~= seq![Seq::<char>::empty()]);
    while i < n
        invariant
            n == s@.len(),
            start <= i <= n,
            views(pieces@).push(s@.subrange(start as int, i as int)) == split_on(
                s@.take(i as int),
                sep,
            ),
        decreases n - i,
    {
        let c = s.get_char(i);
        let ghost before = views(pieces@);
        proof {
            assert(s@.take(i + 1).drop_last() =~= s@.take(i as int));
            assert(s@.take(i + 1).last() == c);
            lemma_split_on_nonempty(s@.take(i as int), sep);
        }
        if c == sep {
            let piece = s.substring_char(start, i).to_owned();
            pieces.push(piece);
            start = i + 1;
            assert(split_on(s@.take(i + 1), sep) == split_on(s@.take(i as int), sep).push(
                Seq::<char>::empty(),
            ));
            assert(views(pieces@) =~= before.push(piece@));
            assert(views(pieces@) == split_on(s@.take(i as int), sep));
            assert(s@.subrange(start as int, i + 1) =~= Seq::<char>::empty());
            assert(views(pieces@).push(s@.subrange(start as int, i + 1)) =~= split_on(
                s@.take(i + 1),
                sep,
            ));
        } else {
            assert(s@.subrange(start as int, i + 1) =~= s@.subrange(start as int, i as int).push(
                c,
            ));
            assert(views(pieces@).push(s@.subrange(start as int, i + 1)) =~= split_on(
                s@.take(i + 1),
                sep,
            ));
        }
        i = i + 1;
    }
    let last = s.substring_char(start, n).to_owned();
    let ghost before = views(pieces@);
    pieces.push(last);
    assert(views(pieces@) =~= before.push(last@));
    assert(s@.take(n as int) =~= s@);
    pieces
}

/// The pieces joined into one sequence with `sep` between neighbours.
pub open spec fn join_with(pieces: Seq<Seq<char>>, sep: Seq<char>) -> Seq<char>
    decreases pieces.len(),
{
    if pieces.len() == 0 {
        Seq::<char>::empty()
    } else if pieces.len() == 1 {
        pieces[0]
    } else {
        join_with(pieces.drop_last(), sep) + sep + pieces.last()
    }
}

/// Joins the strings with `sep` between neighbours.
pub fn join_strs(pieces: &Vec<String>, sep: &str) -> (r: String)
    ensures
        r@ == join_with(views(pieces@), sep@),
{
    let mut r = String::new();
    let mut i: usize = 0;
    while i < pieces.len()
        invariant
            i <= pieces@.len(),
            r@ == join_with(views(pieces@).take(i as int), sep@),
        decreases pieces.len() - i,
    {
        let ghost prefix = views(pieces@).take(i as int);
        assert(views(pieces@).take(i + 1).drop_last() =~= prefix);
        if i > 0 {
            r.append(sep);
        }
        r.append(pieces[i].as_str());
        if i == 0 {
            assert(r@ =~= join_with(views(pieces@).take(1), sep@));
        }
        i = i + 1;
    }
    assert(views(pieces@).take(pieces@.len() as int) =~= views(pieces@));
    r
}

/// Whether `c` occurs in `s`.
pub open spec fn holds_char(s: Seq<char>, c: char) -> bool {
    exists|k: int| 0 <= k < s.len() && s[k] == c
}

proof fn lemma_split_extend(p: Seq<char>, y: Seq<char>, sep: char)
    requires
        !holds_char(y, sep),
    ensures
        split_on(p + y, sep) == split_on(p, sep).update(
            split_on(p, sep).len() - 1,
            split_on(p, sep).last() + y,
        ),
    decreases y.len(),
{
    lemma_split_on_nonempty(p, sep);
    if y.len() == 0 {
        assert(p + y =~= p);
        assert(split_on(p, sep).last() + y =~= split_on(p, sep).last());
        assert(split_on(p, sep).update(split_on(p, sep).len() - 1, split_on(p, sep).last())
            =~= split_on(p, sep));
    } else {
        let y0 = y.drop_last();
        assert(!holds_char(y0, sep)) by {
            if holds_char(y0, sep) {
                let k = choose|k: int| 0 <= k < y0.len() && y0[k] == sep;
                assert(y[k] == sep);
            }
        }
        assert(y[y.len() - 1] != sep);
        lemma_split_extend(p, y0, sep);
        assert((p + y).drop_last() =~= p + y0);
        assert((p + y).last() == y.last());
        lemma_split_on_nonempty(p + y0, sep);
        assert((split_on(p, sep).last() + y0).push(y.last()) =~= split_on(p, sep).last() + y);
        assert(split_on(p + y, sep) =~= split_on(p, sep).update(
            split_on(p, sep).len() - 1,
            split_on(p, sep).last() + y,
        ));
    }
}

/// Splitting what `join_with` built gives the pieces back, provided there is at
/// least one and none of them holds the separator.
pub proof fn lemma_split_join(pieces: Seq<Seq<char>>, sep: char)
    requires
        pieces.len() >= 1,
        forall|k: int| 0 <= k < pieces.len() ==> !holds_char(#[trigger] pieces[k], sep),
    ensures
        split_on(join_with(pieces, seq![sep]), sep) == pieces,
    decreases pieces.len(),
{
    if pieces.len() == 1 {
        lemma_split_extend(Seq::<char>::empty(), pieces[0], sep);
        assert(Seq::<char>::empty() + pieces[0] =~= pieces[0]);
        assert(split_on(Seq::<char>::empty(), sep) =~= seq![Seq::<char>::empty()]);
        assert(Seq::<char>::empty() + pieces[0] =~= pieces[0]);
        assert(split_on(pieces[0], sep) =~= pieces);
    } else {
        let front = pieces.drop_last();
        assert forall|k: int| 0 <= k < front.len() implies !holds_char(#[trigger] front[k], sep) by {
            assert(front[k] == pieces[k]);
        }
        lemma_split_join(front, sep);
        let j = join_with(front, seq![sep]);
        let js = j + seq![sep];
        assert(js.drop_last() =~= j);
        assert(split_on(js, sep) == split_on(j, sep).push(Seq::<char>::empty()));
        assert(!holds_char(pieces.last(), sep));
        lemma_split_extend(js, pieces.last(), sep);
        assert(Seq::<char>::empty() + pieces.last() =~= pieces.last());
        assert(split_on(js + pieces.last(), sep) =~= pieces);
    }
}

/// No field that `split_on` yields holds the separator.
pub proof fn lemma_split_on_fields(s: Seq<char>, sep: char)
    ensures
        forall|k: int|
            0 <= k < split_on(s, sep).len() ==> !holds_char(#[trigger] split_on(s, sep)[k], sep),
    decreases s.len(),
{
    if s.len() > 0 {
        lemma_split_on_fields(s.drop_last(), sep);
        lemma_split_on_nonempty(s.drop_last(), sep);
        let prev = split_on(s.drop_last(), sep);
        if s.last() != sep {
            let grown = prev.last().push(s.last());
            assert(!holds_char(grown, sep)) by {
                if holds_char(grown, sep) {
                    let k = choose|k: int| 0 <= k < grown.len() && grown[k] == sep;
                    assert(prev.last()[k] == sep);
                }
            }
        }
    }
}

/// Whether `s` begins with `p`.
pub open spec fn has_prefix(s: Seq<char>, p: Seq<char>) -> bool {
    p.len() <= s.len() && s.take(p.len() as int) == p
}

/// What follows `prefix` in `s`, or `None` where `s` does not begin with it.
pub fn strip_prefix_str(s: &str, prefix: &str) -> (r: Option<String>)
    ensures
        match r {
            Some(t) => has_prefix(s@, prefix@) && t@ == s@.skip(prefix@.len() as int),
            None => !has_prefix(s@, prefix@),
        },
{
    let n = s.unicode_len();
    let m = prefix.unicode_len();
    if m > n {
        return None;
    }
    let mut i: usize = 0;
    while i < m
        invariant
            m == prefix@.len(),
            n == s@.len(),
            m <= n,
            i <= m,
            s@.take(i as int) == prefix@.take(i as int),
        decreases m - i,
    {
        if s.get_char(i) != prefix.get_char(i) {
            assert(s@.take(m as int)[i as int] != prefix@[i as int]);
            return None;
        }
        assert(s@.take(i + 1) =~= s@.take(i as int).push(s@[i as int]));
        assert(prefix@.take(i + 1) =~= prefix@.take(i as int).push(prefix@[i as int]));
        i = i + 1;
    }
    assert(prefix@.take(m as int) =~= prefix@);
    Some(s.substring_char(m, n).to_owned())
}

/// Whether the two strings hold the same characters.
pub fn same_text(a: &str, b: &str) -> (r: bool)
    ensures
        r == (a@ == b@),
{
    let n = a.unicode_len();
    if n != b.unicode_len() {
        return false;
    }
    let mut i: usize = 0;
    while i < n
        invariant
            n == a@.len(),
            n == b@.len(),
            i <= n,
            forall|k: int| 0 <= k < i ==> a@[k] == b@[k],
        decreases n - i,
    {
        if a.get_char(i) != b.get_char(i) {
            return false;
        }
        i = i + 1;
    }
    assert(a@ =~= b@);
    true
}

} // verus!
