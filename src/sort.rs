use vstd::prelude::*;
use vstd::multiset::Multiset;
use crate::text::{chars_lt, lemma_seq_lt_irreflexive, lemma_seq_lt_total, lemma_seq_lt_transitive, seq_lt};

verus! {

broadcast use vstd::seq_lib::group_to_multiset_ensures;

/// One part of a sort key: a text or a number.
pub enum Part {
    Text(Vec<char>),
    Num(usize),
}

/// What a key part stands for.
pub enum PartV {
    Text(Seq<char>),
    Num(nat),
}

pub open spec fn part_view(p: Part) -> PartV {
    match p {
        Part::Text(t) => PartV::Text(t@),
        Part::Num(n) => PartV::Num(n as nat),
    }
}

pub open spec fn key_view(k: Seq<Part>) -> Seq<PartV> {
    k.map_values(|p: Part| part_view(p))
}

/// Numbers come before texts; numbers by value; texts by `seq_lt`.
pub open spec fn part_lt(a: PartV, b: PartV) -> bool {
    match (a, b) {
        (PartV::Num(x), PartV::Num(y)) => x < y,
        (PartV::Text(x), PartV::Text(y)) => seq_lt(x, y),
        (PartV::Num(_), PartV::Text(_)) => true,
        (PartV::Text(_), PartV::Num(_)) => false,
    }
}

/// `a` comes strictly before `b`, part by part, a proper prefix first.
pub open spec fn key_lt(a: Seq<PartV>, b: Seq<PartV>) -> bool
    decreases a.len(),
{
    if a.len() == 0 {
        b.len() > 0
    } else if b.len() == 0 {
        false
    } else if a[0] != b[0] {
        part_lt(a[0], b[0])
    } else {
        key_lt(a.drop_first(), b.drop_first())
    }
}

/// Along `s`, no element's key comes strictly before that of an element
/// ahead of it.
pub open spec fn sorted_by<T>(s: Seq<T>, kf: spec_fn(T) -> Seq<PartV>) -> bool {
    forall|i: int, j: int| 0 <= i < j < s.len() ==> !key_lt(kf(#[trigger] s[j]), kf(#[trigger] s[i]))
}

proof fn lemma_part_lt_irreflexive(a: PartV)
    ensures
        !part_lt(a, a),
{
    if let PartV::Text(x) = a {
        lemma_seq_lt_irreflexive(x);
    }
}

proof fn lemma_part_lt_transitive(a: PartV, b: PartV, c: PartV)
    requires
        part_lt(a, b),
        part_lt(b, c),
    ensures
        part_lt(a, c),
{
    if let (PartV::Text(x), PartV::Text(y), PartV::Text(z)) = (a, b, c) {
        lemma_seq_lt_transitive(x, y, z);
    }
}

proof fn lemma_part_lt_total(a: PartV, b: PartV)
    requires
        a != b,
    ensures
        part_lt(a, b) || part_lt(b, a),
{
    if let (PartV::Text(x), PartV::Text(y)) = (a, b) {
        lemma_seq_lt_total(x, y);
    }
}

pub proof fn lemma_key_lt_irreflexive(a: Seq<PartV>)
    ensures
        !key_lt(a, a),
    decreases a.len(),
{
    if a.len() > 0 {
        lemma_key_lt_irreflexive(a.drop_first());
    }
}

pub proof fn lemma_key_lt_transitive(a: Seq<PartV>, b: Seq<PartV>, c: Seq<PartV>)
    requires
        key_lt(a, b),
        key_lt(b, c),
    ensures
        key_lt(a, c),
    decreases a.len(),
{
    if a.len() > 0 && b.len() > 0 && c.len() > 0 {
        if a[0] == b[0] && b[0] == c[0] {
            lemma_key_lt_transitive(a.drop_first(), b.drop_first(), c.drop_first());
        } else if a[0] != b[0] && b[0] != c[0] {
            lemma_part_lt_transitive(a[0], b[0], c[0]);
            if a[0] == c[0] {
                lemma_part_lt_irreflexive(a[0]);
            }
        } else if a[0] == b[0] {
        } else {
        }
    }
}

pub proof fn lemma_key_lt_total(a: Seq<PartV>, b: Seq<PartV>)
    requires
        a != b,
    ensures
        key_lt(a, b) || key_lt(b, a),
    decreases a.len(),
{
    if a.len() > 0 && b.len() > 0 {
        if a[0] == b[0] {
            if a.drop_first() == b.drop_first() {
                assert(a =~= seq![a[0]] + a.drop_first());
                assert(b =~= seq![b[0]] + b.drop_first());
            }
            lemma_key_lt_total(a.drop_first(), b.drop_first());
        } else {
            lemma_part_lt_total(a[0], b[0]);
        }
    } else if a.len() == 0 && b.len() == 0 {
        assert(a =~= b);
    }
}

fn part_eq(a: &Part, b: &Part) -> (r: bool)
    ensures
        r == (part_view(*a) == part_view(*b)),
{
    match (a, b) {
        (Part::Num(x), Part::Num(y)) => *x == *y,
        (Part::Text(x), Part::Text(y)) => crate::text::chars_eq(x.as_slice(), y.as_slice()),
        _ => false,
    }
}

fn part_less(a: &Part, b: &Part) -> (r: bool)
    ensures
        r == part_lt(part_view(*a), part_view(*b)),
{
    match (a, b) {
        (Part::Num(x), Part::Num(y)) => *x < *y,
        (Part::Text(x), Part::Text(y)) => chars_lt(x.as_slice(), y.as_slice()),
        (Part::Num(_), Part::Text(_)) => true,
        (Part::Text(_), Part::Num(_)) => false,
    }
}

/// Whether key `a` comes strictly before key `b`.
pub fn key_less(a: &Vec<Part>, b: &Vec<Part>) -> (r: bool)
    ensures
        r == key_lt(key_view(a@), key_view(b@)),
{
    let ghost ka = key_view(a@);
    let ghost kb = key_view(b@);
    let mut i: usize = 0;
    assert(ka.skip(0) =~= ka);
    assert(kb.skip(0) =~= kb);
    while i < a.len() && i < b.len() && part_eq(&a[i], &b[i])
        invariant
            ka == key_view(a@),
            kb == key_view(b@),
            i <= a.len(),
            i <= b.len(),
            key_lt(ka, kb) == key_lt(ka.skip(i as int), kb.skip(i as int)),
        decreases a.len() - i,
    {
        assert(ka.skip(i as int).drop_first() =~= ka.skip(i + 1));
        assert(kb.skip(i as int).drop_first() =~= kb.skip(i + 1));
        i = i + 1;
    }
    if i == a.len() {
        i < b.len()
    } else if i == b.len() {
        false
    } else {
        part_less(&a[i], &b[i])
    }
}

/// Sorts `items` by the keys in `keys`, which stand for `kf` of each item:
/// the result holds the same items, in an order along which no key comes
/// strictly before an earlier one.
pub(crate) fn sort_keyed<T>(items: Vec<T>, keys: Vec<Vec<Part>>, Ghost(kf): Ghost<spec_fn(T) -> Seq<PartV>>) -> (r: Vec<T>)
    requires
        items@.len() == keys@.len(),
        forall|i: int| 0 <= i < items@.len() ==> key_view(#[trigger] keys@[i]@) == kf(items@[i]),
    ensures
        r@.to_multiset() == items@.to_multiset(),
        sorted_by(r@, kf),
{
    let ghost orig = items@;
    let mut rest = items;
    let mut rest_keys = keys;
    let mut out: Vec<T> = Vec::new();
    while rest.len() > 0
        invariant
            rest@.len() == rest_keys@.len(),
            forall|i: int| 0 <= i < rest@.len() ==> key_view(#[trigger] rest_keys@[i]@) == kf(rest@[i]),
            out@.to_multiset().add(rest@.to_multiset()) == orig.to_multiset(),
            sorted_by(out@, kf),
            forall|i: int, j: int|
                0 <= i < out@.len() && 0 <= j < rest@.len() ==> !key_lt(
                    kf(#[trigger] rest@[j]),
                    kf(#[trigger] out@[i]),
                ),
        decreases rest@.len(),
    {
        let mut m: usize = 0;
        let mut j: usize = 1;
        proof {
            lemma_key_lt_irreflexive(kf(rest@[0]));
        }
        while j < rest.len()
            invariant
                rest@.len() == rest_keys@.len(),
                forall|i: int| 0 <= i < rest@.len() ==> key_view(#[trigger] rest_keys@[i]@) == kf(rest@[i]),
                m < rest@.len(),
                1 <= j <= rest@.len(),
                forall|k: int| 0 <= k < j ==> !key_lt(kf(#[trigger] rest@[k]), kf(rest@[m as int])),
            decreases rest@.len() - j,
        {
            if key_less(&rest_keys[j], &rest_keys[m]) {
                proof {
                    assert forall|k: int| 0 <= k < j implies !key_lt(
                        kf(#[trigger] rest@[k]),
                        kf(rest@[j as int]),
                    ) by {
                        if key_lt(kf(rest@[k]), kf(rest@[j as int])) {
                            lemma_key_lt_transitive(kf(rest@[k]), kf(rest@[j as int]), kf(rest@[m as int]));
                        }
                    }
                    lemma_key_lt_irreflexive(kf(rest@[j as int]));
                }
                m = j;
            }
            j = j + 1;
        }
        proof {
            lemma_key_lt_irreflexive(kf(rest@[m as int]));
        }
        let ghost old_rest = rest@;
        let ghost old_out = out@;
        let x = rest.remove(m);
        let _ = rest_keys.remove(m);
        out.push(x);
        proof {
            assert(old_rest.remove(m as int) == rest@);
            assert(rest@.to_multiset() == old_rest.to_multiset().remove(x));
            assert(out@.to_multiset() == old_out.to_multiset().insert(x));
            assert(old_rest.to_multiset().count(x) > 0) by {
                assert(old_rest.contains(x));
            }
            assert(out@.to_multiset().add(rest@.to_multiset()) =~= old_out.to_multiset().add(
                old_rest.to_multiset(),
            ));
            assert forall|i: int, k: int|
                0 <= i < out@.len() && 0 <= k < rest@.len() implies !key_lt(
                kf(#[trigger] rest@[k]),
                kf(#[trigger] out@[i]),
            ) by {
                let k0 = if k < m { k } else { k + 1 };
                assert(rest@[k] == old_rest[k0]);
                if i < old_out.len() {
                    assert(out@[i] == old_out[i]);
                }
            }
            assert forall|i: int, k: int| 0 <= i < k < out@.len() implies !key_lt(
                kf(#[trigger] out@[k]),
                kf(#[trigger] out@[i]),
            ) by {
                if k < old_out.len() {
                    assert(out@[k] == old_out[k]);
                    assert(out@[i] == old_out[i]);
                } else {
                    assert(out@[i] == old_out[i]);
                    assert(old_rest[m as int] == x);
                }
            }
        }
    }
    assert(rest@.to_multiset() =~= Multiset::empty());
    assert(out@.to_multiset().add(Multiset::empty()) =~= out@.to_multiset());
    out
}

/// Two arrangements of the same items that are both sorted by a key function
/// that tells those items apart are the same arrangement.
pub proof fn lemma_sorted_unique<T>(a: Seq<T>, b: Seq<T>, kf: spec_fn(T) -> Seq<PartV>)
    requires
        a.to_multiset() == b.to_multiset(),
        sorted_by(a, kf),
        sorted_by(b, kf),
        forall|x: T, y: T| a.contains(x) && a.contains(y) && kf(x) == kf(y) ==> x == y,
    ensures
        a == b,
    decreases a.len(),
{
    a.to_multiset_ensures();
    b.to_multiset_ensures();
    if a.len() == 0 {
        assert(b.len() == 0);
        assert(a =~= b);
    } else {
        assert(b.len() == a.len());
        let x = a[0];
        let y = b[0];
        assert(a.to_multiset().count(x) > 0);
        assert(b.contains(x));
        assert(b.to_multiset().count(y) > 0);
        assert(a.contains(y));
        let k = choose|k: int| 0 <= k < a.len() && a[k] == y;
        let l = choose|l: int| 0 <= l < b.len() && b[l] == x;
        if k > 0 {
            assert(!key_lt(kf(a[k]), kf(a[0])));
        } else {
            lemma_key_lt_irreflexive(kf(x));
        }
        if l > 0 {
            assert(!key_lt(kf(b[l]), kf(b[0])));
        } else {
            lemma_key_lt_irreflexive(kf(x));
        }
        if kf(x) != kf(y) {
            lemma_key_lt_total(kf(x), kf(y));
        }
        assert(x == y);
        let a1 = a.drop_first();
        let b1 = b.drop_first();
        assert(a.remove(0) =~= a1);
        assert(b.remove(0) =~= b1);
        assert(a1.to_multiset() == b1.to_multiset());
        assert forall|i: int, j: int| 0 <= i < j < a1.len() implies !key_lt(
            kf(#[trigger] a1[j]),
            kf(#[trigger] a1[i]),
        ) by {
            assert(a1[j] == a[j + 1] && a1[i] == a[i + 1]);
        }
        assert forall|i: int, j: int| 0 <= i < j < b1.len() implies !key_lt(
            kf(#[trigger] b1[j]),
            kf(#[trigger] b1[i]),
        ) by {
            assert(b1[j] == b[j + 1] && b1[i] == b[i + 1]);
        }
        assert forall|u: T, v: T| a1.contains(u) && a1.contains(v) && kf(u) == kf(v) implies u == v by {
            let iu = choose|i: int| 0 <= i < a1.len() && a1[i] == u;
            let iv = choose|i: int| 0 <= i < a1.len() && a1[i] == v;
            assert(a[iu + 1] == u);
            assert(a[iv + 1] == v);
            assert(a.contains(u) && a.contains(v));
        }
        lemma_sorted_unique(a1, b1, kf);
        assert forall|i: int| 0 <= i < a.len() implies a[i] == b[i] by {
            if i > 0 {
                assert(a[i] == a1[i - 1]);
                assert(b[i] == b1[i - 1]);
            }
        }
        assert(a =~= b);
    }
}

} // verus!
