//! Lexical operations on filesystem paths written with `/` separators.
use vstd::prelude::*;
use crate::text::{split_on, split_str, views};

verus! {

/// `p` without its trailing separators; a lone `/` stays.
pub open spec fn trim_trailing_seps(p: Seq<char>) -> Seq<char>
    decreases p.len(),
{
    if p.len() > 1 && p.last() == '/' {
        trim_trailing_seps(p.drop_last())
    } else {
        p
    }
}

/// The index of the last `c` in `s`, or -1 where there is none.
pub open spec fn last_index(s: Seq<char>, c: char) -> int
    decreases s.len(),
{
    if s.len() == 0 {
        -1
    } else if s.last() == c {
        s.len() - 1
    } else {
        last_index(s.drop_last(), c)
    }
}

/// The directory that holds `p`: everything before its last component. The
/// root and the empty path have none; a single relative name lies in the
/// current directory, written as the empty path.
pub open spec fn parent_dir(p: Seq<char>) -> Option<Seq<char>> {
    let t = trim_trailing_seps(p);
    if t.len() == 0 || t == seq!['/'] {
        None
    } else {
        let k = last_index(t, '/');
        if k < 0 {
            Some(Seq::<char>::empty())
        } else if k == 0 {
            Some(seq!['/'])
        } else {
            Some(t.take(k))
        }
    }
}

/// `name` placed inside the directory `dir`.
pub open spec fn join_file(dir: Seq<char>, name: Seq<char>) -> Seq<char> {
    if dir.len() == 0 {
        name
    } else if dir.last() == '/' {
        dir + name
    } else {
        dir + seq!['/'] + name
    }
}

/// The last normal component of a sequence of components: empty ones and `.`
/// are passed over, and a final `..` names nothing.
pub open spec fn last_name(fields: Seq<Seq<char>>) -> Option<Seq<char>>
    decreases fields.len(),
{
    if fields.len() == 0 {
        None
    } else {
        let f = fields.last();
        if f.len() == 0 || f == seq!['.'] {
            last_name(fields.drop_last())
        } else if f == seq!['.', '.'] {
            None
        } else {
            Some(f)
        }
    }
}

/// The final component of the path `p`, if it has one.
pub open spec fn base_name(p: Seq<char>) -> Option<Seq<char>> {
    last_name(split_on(p, '/'))
}

/// Computes `parent_dir(p)`.
pub fn parent_of(p: &str) -> (r: Option<String>)
    ensures
        match r {
            Some(d) => parent_dir(p@) == Some(d@),
            None => parent_dir(p@) is None,
        },
{
    let n = p.unicode_len();
    let mut j: usize = n;
    assert(p@.take(n as int) =~= p@);
    while j > 1 && p.get_char(j - 1) == '/'
        invariant
            n == p@.len(),
            j <= n,
            trim_trailing_seps(p@) == trim_trailing_seps(p@.take(j as int)),
        decreases j,
    {
        assert(p@.take(j as int).drop_last() =~= p@.take(j - 1));
        j = j - 1;
    }
    let ghost t = p@.take(j as int);
    assert(p@.take(n as int) =~= p@);
    assert(trim_trailing_seps(t) == t);
    if j == 0 {
        return None;
    }
    if j == 1 && p.get_char(0) == '/' {
        assert(t =~= seq!['/']);
        return None;
    }
    assert(t != seq!['/']) by {
        if j == 1 {
            assert(t[0] != '/');
        }
    }
    let mut k: usize = j;
    while k > 0 && p.get_char(k - 1) != '/'
        invariant
            n == p@.len(),
            k <= j <= n,
            t == p@.take(j as int),
            last_index(t, '/') == last_index(p@.take(k as int), '/'),
        decreases k,
    {
        assert(p@.take(k as int).drop_last() =~= p@.take(k - 1));
        k = k - 1;
    }
    if k == 0 {
        assert(p@.take(0) =~= Seq::<char>::empty());
        Some(String::new())
    } else {
        assert(p@.take(k as int).last() == '/');
        if k == 1 {
            let d = p.substring_char(0, 1).to_owned();
            assert(d@ =~= seq!['/']);
            Some(d)
        } else {
            let d = p.substring_char(0, k - 1).to_owned();
            assert(d@ =~= t.take(k - 1));
            Some(d)
        }
    }
}

/// Computes `join_file(dir, name)`.
pub fn join_file_name(dir: &str, name: &str) -> (r: String)
    ensures
        r@ == join_file(dir@, name@),
{
    let n = dir.unicode_len();
    let mut r = String::from_str(dir);
    if n > 0 && dir.get_char(n - 1) != '/' {
        proof {
            reveal_strlit("/");
        }
        r.append("/");
    }
    r.append(name);
    r
}

/// Computes `base_name(p)`.
pub fn base_name_of(p: &str) -> (r: Option<String>)
    ensures
        match r {
            Some(b) => base_name(p@) == Some(b@),
            None => base_name(p@) is None,
        },
{
    let fields = split_str(p, '/');
    let mut k: usize = fields.len();
    assert(views(fields@).take(k as int) =~= views(fields@));
    while k > 0
        invariant
            k <= fields@.len(),
            views(fields@) == split_on(p@, '/'),
            base_name(p@) == last_name(views(fields@).take(k as int)),
        decreases k,
    {
        let f = fields[k - 1].as_str();
        let l = f.unicode_len();
        let ghost pre = views(fields@).take(k as int);
        assert(pre.last() == f@);
        assert(pre.drop_last() =~= views(fields@).take(k - 1));
        if l == 0 || (l == 1 && f.get_char(0) == '.') {
            assert(l == 1 ==> f@ =~= seq!['.']);
            k = k - 1;
        } else if l == 2 && f.get_char(0) == '.' && f.get_char(1) == '.' {
            assert(f@ =~= seq!['.', '.']);
            return None;
        } else {
            assert(f@ != seq!['.']) by {
                if l == 1 {
                    assert(f@[0] != seq!['.'][0]);
                }
            }
            assert(f@ != seq!['.', '.']) by {
                if l == 2 {
                    assert(f@[0] != '.' || f@[1] != '.');
                }
            }
            return Some(fields[k - 1].clone());
        }
    }
    None
}

} // verus!
