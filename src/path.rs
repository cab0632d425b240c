use vstd::prelude::*;
use crate::text::{char_views, chars_of};

verus! {

/// The pieces of `s` between occurrences of `sep`: one more than there are
/// separators, some of them possibly empty.
pub open spec fn split_on(s: Seq<char>, sep: char) -> Seq<Seq<char>>
    decreases s.len(),
{
    if s.len() == 0 {
        seq![Seq::<char>::empty()]
    } else {
        let p = split_on(s.drop_last(), sep);
        if s.last() == sep {
            p.push(Seq::<char>::empty())
        } else {
            p.update(p.len() - 1, p.last().push(s.last()))
        }
    }
}

/// A path segment that names something: not empty, not `.` and not `..`.
pub open spec fn is_normal(seg: Seq<char>) -> bool {
    seg.len() > 0 && seg != seq!['.'] && seg != seq!['.', '.']
}

/// The normal pieces among `ps`, in order.
pub open spec fn keep_normal(ps: Seq<Seq<char>>) -> Seq<Seq<char>>
    decreases ps.len(),
{
    if ps.len() == 0 {
        Seq::empty()
    } else {
        let k = keep_normal(ps.drop_last());
        if is_normal(ps.last()) {
            k.push(ps.last())
        } else {
            k
        }
    }
}

/// The normal segments of a `/`-separated path: no root, no `.` and no `..`.
pub open spec fn segments(path: Seq<char>) -> Seq<Seq<char>> {
    keep_normal(split_on(path, '/'))
}

/// The last piece of `ps` that is neither empty nor `.`, if any.
pub open spec fn last_named(ps: Seq<Seq<char>>) -> Option<Seq<char>>
    decreases ps.len(),
{
    if ps.len() == 0 {
        None
    } else if ps.last().len() > 0 && ps.last() != seq!['.'] {
        Some(ps.last())
    } else {
        last_named(ps.drop_last())
    }
}

/// The final component of a path, when that component names a file or a
/// folder: `None` for an empty path, the root, or a path that ends in `..`.
pub open spec fn base_name(path: Seq<char>) -> Option<Seq<char>> {
    match last_named(split_on(path, '/')) {
        Some(n) => if n == seq!['.', '.'] {
            None
        } else {
            Some(n)
        },
        None => None,
    }
}

/// The position of the last `.` in `name`, or -1.
pub open spec fn last_dot(name: Seq<char>) -> int
    decreases name.len(),
{
    if name.len() == 0 {
        -1
    } else if name.last() == '.' {
        name.len() - 1
    } else {
        last_dot(name.drop_last())
    }
}

/// The extension of a file name: what follows its last `.`, where that `.`
/// is not the name's first character.
pub open spec fn ext_of(name: Seq<char>) -> Option<Seq<char>> {
    if last_dot(name) > 0 {
        Some(name.skip(last_dot(name) + 1))
    } else {
        None
    }
}

/// A segment hidden by the dot convention: a `.` followed by more.
pub open spec fn is_dotted(seg: Seq<char>) -> bool {
    seg.len() > 1 && seg[0] == '.'
}

pub proof fn lemma_split_on_len(s: Seq<char>, sep: char)
    ensures
        split_on(s, sep).len() >= 1,
    decreases s.len(),
{
    if s.len() > 0 {
        lemma_split_on_len(s.drop_last(), sep);
    }
}

/// Splitting `a`, a separator and `b` gives the pieces of `a` followed by those of `b`.
pub proof fn lemma_split_on_concat(a: Seq<char>, b: Seq<char>, sep: char)
    ensures
        split_on(a + seq![sep] + b, sep) == split_on(a, sep) + split_on(b, sep),
    decreases b.len(),
{
    let s = a + seq![sep] + b;
    if b.len() == 0 {
        assert(s.drop_last() =~= a);
        assert(split_on(a, sep) + split_on(b, sep) =~= split_on(a, sep).push(Seq::<char>::empty()));
    } else {
        lemma_split_on_concat(a, b.drop_last(), sep);
        lemma_split_on_len(b.drop_last(), sep);
        assert(s.drop_last() =~= a + seq![sep] + b.drop_last());
        assert(s.last() == b.last());
        let x = split_on(a, sep);
        let y = split_on(b.drop_last(), sep);
        if b.last() == sep {
            assert(x + y.push(Seq::<char>::empty()) =~= (x + y).push(Seq::<char>::empty()));
        } else {
            assert(x + y.update(y.len() - 1, y.last().push(b.last())) =~= (x + y).update(
                (x + y).len() - 1,
                (x + y).last().push(b.last()),
            ));
        }
    }
}

/// Keeping the normal pieces of two joined lists keeps those of each.
pub proof fn lemma_keep_normal_concat(x: Seq<Seq<char>>, y: Seq<Seq<char>>)
    ensures
        keep_normal(x + y) == keep_normal(x) + keep_normal(y),
    decreases y.len(),
{
    if y.len() == 0 {
        assert(x + y =~= x);
        assert(keep_normal(x) + keep_normal(y) =~= keep_normal(x));
    } else {
        lemma_keep_normal_concat(x, y.drop_last());
        assert((x + y).drop_last() =~= x + y.drop_last());
        assert((x + y).last() == y.last());
        let kx = keep_normal(x);
        let ky = keep_normal(y.drop_last());
        assert(kx + ky.push(y.last()) =~= (kx + ky).push(y.last()));
    }
}

/// Every piece that `keep_normal` keeps is normal.
pub proof fn lemma_keep_normal_normal(ps: Seq<Seq<char>>)
    ensures
        forall|k: int| 0 <= k < keep_normal(ps).len() ==> is_normal(#[trigger] keep_normal(ps)[k]),
    decreases ps.len(),
{
    if ps.len() > 0 {
        lemma_keep_normal_normal(ps.drop_last());
        let k0 = keep_normal(ps.drop_last());
        if is_normal(ps.last()) {
            assert forall|k: int| 0 <= k < k0.push(ps.last()).len() implies is_normal(
                #[trigger] k0.push(ps.last())[k],
            ) by {
                if k < k0.len() {
                    assert(k0.push(ps.last())[k] == k0[k]);
                }
            }
        }
    }
}

/// The segments of a folder come first among those of any path beneath it.
pub proof fn lemma_segments_of_descendant(dir: Seq<char>, rest: Seq<char>)
    ensures
        segments(dir + seq!['/'] + rest) == segments(dir) + segments(rest),
{
    lemma_split_on_concat(dir, rest, '/');
    lemma_keep_normal_concat(split_on(dir, '/'), split_on(rest, '/'));
}

/// The pieces of `s` between occurrences of `sep`.
pub fn split_chars(s: &[char], sep: char) -> (r: Vec<Vec<char>>)
    ensures
        char_views(r@) == split_on(s@, sep),
{
    let mut out: Vec<Vec<char>> = Vec::new();
    let mut cur: Vec<char> = Vec::new();
    let mut i: usize = 0;
    assert(s@.take(0) =~= Seq::<char>::empty());
    assert(char_views(out@).push(cur@) =~= split_on(s@.take(0), sep));
    while i < s.len()
        invariant
            i <= s.len(),
            char_views(out@).push(cur@) == split_on(s@.take(i as int), sep),
        decreases s.len() - i,
    {
        let ghost t = s@.take(i + 1);
        assert(t.drop_last() =~= s@.take(i as int));
        assert(t.last() == s@[i as int]);
        let c = s[i];
        if c == sep {
            let ghost before = out@;
            out.push(cur);
            cur = Vec::new();
            assert(char_views(out@) =~= char_views(before).push(char_views(out@).last()));
            assert(char_views(out@).push(cur@) =~= split_on(t, sep));
        } else {
            let ghost old_cur = cur@;
            cur.push(c);
            assert(char_views(out@).push(cur@) =~= char_views(out@).push(old_cur).update(
                char_views(out@).len() as int,
                old_cur.push(c),
            ));
        }
        i = i + 1;
    }
    assert(s@.take(s.len() as int) =~= s@);
    let ghost before = out@;
    out.push(cur);
    assert(char_views(out@) =~= char_views(before).push(cur@));
    out
}

/// The normal segments among `pieces`, in order.
pub fn normal_pieces(pieces: &Vec<Vec<char>>) -> (r: Vec<Vec<char>>)
    ensures
        char_views(r@) == keep_normal(char_views(pieces@)),
{
    let mut out: Vec<Vec<char>> = Vec::new();
    let mut i: usize = 0;
    assert(char_views(pieces@).take(0) =~= Seq::<Seq<char>>::empty());
    while i < pieces.len()
        invariant
            i <= pieces.len(),
            char_views(out@) == keep_normal(char_views(pieces@).take(i as int)),
        decreases pieces.len() - i,
    {
        let ghost t = char_views(pieces@).take(i + 1);
        assert(t.drop_last() =~= char_views(pieces@).take(i as int));
        let p = &pieces[i];
        let normal = p.len() > 0 && !chars_is(p, '.', 1) && !chars_is(p, '.', 2);
        if normal {
            let ghost before = out@;
            out.push(p.clone());
            assert(char_views(out@) =~= char_views(before).push(p@));
        }
        i = i + 1;
    }
    assert(char_views(pieces@).take(pieces.len() as int) =~= char_views(pieces@));
    out
}

/// Whether `p` is `n` copies of `c`, for `n` of 1 or 2.
fn chars_is(p: &Vec<char>, c: char, n: usize) -> (r: bool)
    requires
        n == 1 || n == 2,
    ensures
        n == 1 ==> r == (p@ == seq![c]),
        n == 2 ==> r == (p@ == seq![c, c]),
{
    if p.len() != n {
        return false;
    }
    if n == 1 {
        let r = p[0] == c;
        assert(r ==> p@ =~= seq![c]);
        r
    } else {
        let r = p[0] == c && p[1] == c;
        assert(r ==> p@ =~= seq![c, c]);
        r
    }
}

/// The final named component of a path split into `pieces`, or `None`.
pub fn base_of(pieces: &Vec<Vec<char>>) -> (r: Option<Vec<char>>)
    ensures
        match last_named(char_views(pieces@)) {
            Some(n) => if n == seq!['.', '.'] {
                r is None
            } else {
                r is Some && r->0@ == n
            },
            None => r is None,
        },
{
    let mut i: usize = pieces.len();
    assert(char_views(pieces@).take(i as int) =~= char_views(pieces@));
    while i > 0
        invariant
            i <= pieces.len(),
            last_named(char_views(pieces@)) == last_named(char_views(pieces@).take(i as int)),
        decreases i,
    {
        let ghost t = char_views(pieces@).take(i as int);
        assert(t.drop_last() =~= char_views(pieces@).take(i - 1));
        let p = &pieces[i - 1];
        if p.len() > 0 && !chars_is(p, '.', 1) {
            if chars_is(p, '.', 2) {
                return None;
            }
            return Some(p.clone());
        }
        i = i - 1;
    }
    None
}

/// The final component of a `/`-separated path, if it names something.
pub fn file_name(path: &[char]) -> (r: Option<Vec<char>>)
    ensures
        r is Some <==> base_name(path@) is Some,
        r is Some ==> r->0@ == base_name(path@)->0,
{
    let pieces = split_chars(path, '/');
    base_of(&pieces)
}

/// The extension of a file name, if it has one.
pub fn extension(name: &[char]) -> (r: Option<Vec<char>>)
    ensures
        r is Some <==> ext_of(name@) is Some,
        r is Some ==> r->0@ == ext_of(name@)->0,
{
    let mut i: usize = name.len();
    assert(name@.take(i as int) =~= name@);
    while i > 0
        invariant
            i <= name.len(),
            last_dot(name@) == last_dot(name@.take(i as int)),
        decreases i,
    {
        assert(name@.take(i as int).drop_last() =~= name@.take(i - 1));
        if name[i - 1] == '.' {
            if i == 1 {
                return None;
            }
            let mut e: Vec<char> = Vec::new();
            let mut j: usize = i;
            while j < name.len()
                invariant
                    i <= j <= name.len(),
                    e@ == name@.subrange(i as int, j as int),
                decreases name.len() - j,
            {
                e.push(name[j]);
                j = j + 1;
                assert(e@ =~= name@.subrange(i as int, j as int));
            }
            assert(name@.skip(i as int) =~= name@.subrange(i as int, name.len() as int));
            return Some(e);
        }
        i = i - 1;
    }
    assert(name@.take(0) =~= Seq::<char>::empty());
    None
}

/// Whether `name` is an absolute path: one that starts at the root.
pub fn is_absolute(name: &str) -> (r: bool)
    ensures
        r == (name@.len() > 0 && name@[0] == '/'),
{
    let c = chars_of(name);
    c.len() > 0 && c[0] == '/'
}

/// The absolute form of `name`: `name` itself when it is absolute, else its
/// canonical form where the file system gave one, else `name` unchanged.
pub fn abspath(name: &str, canonical: Option<String>) -> (r: String)
    ensures
        r@ == if name@.len() > 0 && name@[0] == '/' {
            name@
        } else {
            match canonical {
                Some(c) => c@,
                None => name@,
            }
        },
{
    if is_absolute(name) {
        return name.to_owned();
    }
    match canonical {
        Some(c) => c,
        None => name.to_owned(),
    }
}

} // verus!
