use vstd::prelude::*;
use crate::path::{split_chars, split_on};
use crate::registry::is_entry;
use crate::text::{char_views, chars_of, string_of, views};
use crate::types::{codes_unique, LangData, LangEntry, Registry};

verus! {

/// A character with Unicode's White_Space property.
pub open spec fn is_ws(c: char) -> bool {
    ||| c == ' '
    ||| ('\t' <= c && c <= '\r')
    ||| c == '\u{85}'
    ||| c == '\u{a0}'
    ||| c == '\u{1680}'
    ||| ('\u{2000}' <= c && c <= '\u{200a}')
    ||| c == '\u{2028}'
    ||| c == '\u{2029}'
    ||| c == '\u{202f}'
    ||| c == '\u{205f}'
    ||| c == '\u{3000}'
}

/// Whether `c` is white space.
pub fn is_white(c: char) -> (r: bool)
    ensures
        r == is_ws(c),
{
    c == ' ' || ('\t' <= c && c <= '\r') || c == '\u{85}' || c == '\u{a0}' || c == '\u{1680}' || ('\u{2000}' <= c
        && c <= '\u{200a}') || c == '\u{2028}' || c == '\u{2029}' || c == '\u{202f}' || c == '\u{205f}'
        || c == '\u{3000}'
}

/// `s` without white space at either end.
pub open spec fn trimmed(s: Seq<char>) -> Seq<char> {
    s.subrange(lead(s), tail_end(s))
}

/// The number of white-space characters that `s` starts with.
pub open spec fn lead(s: Seq<char>) -> int
    decreases s.len(),
{
    if s.len() > 0 && is_ws(s[0]) {
        1 + lead(s.drop_first())
    } else {
        0
    }
}

/// Where the white space that `s` ends with starts, but not before `lead(s)`.
pub open spec fn tail_end(s: Seq<char>) -> int
    decreases s.len(),
{
    if s.len() > lead(s) && is_ws(s.last()) {
        tail_end(s.drop_last())
    } else {
        s.len() as int
    }
}

proof fn lemma_lead(s: Seq<char>)
    ensures
        0 <= lead(s) <= s.len(),
        forall|j: int| 0 <= j < lead(s) ==> is_ws(#[trigger] s[j]),
        lead(s) < s.len() ==> !is_ws(s[lead(s)]),
    decreases s.len(),
{
    if s.len() > 0 && is_ws(s[0]) {
        lemma_lead(s.drop_first());
        assert forall|j: int| 0 <= j < lead(s) implies is_ws(#[trigger] s[j]) by {
            if j > 0 {
                assert(s[j] == s.drop_first()[j - 1]);
            }
        }
    }
}

proof fn lemma_lead_drop_last(s: Seq<char>)
    requires
        s.len() > lead(s),
    ensures
        lead(s.drop_last()) == lead(s),
    decreases s.len(),
{
    if s.len() > 0 && is_ws(s[0]) {
        lemma_lead(s.drop_first());
        assert(s.drop_last().drop_first() =~= s.drop_first().drop_last());
        lemma_lead_drop_last(s.drop_first());
    }
}

proof fn lemma_tail_end(s: Seq<char>)
    ensures
        lead(s) <= tail_end(s) <= s.len(),
        forall|j: int| tail_end(s) <= j < s.len() ==> is_ws(#[trigger] s[j]),
        tail_end(s) > lead(s) ==> !is_ws(s[tail_end(s) - 1]),
    decreases s.len(),
{
    lemma_lead(s);
    if s.len() > lead(s) && is_ws(s.last()) {
        lemma_lead_drop_last(s);
        lemma_tail_end(s.drop_last());
        assert forall|j: int| tail_end(s) <= j < s.len() implies is_ws(#[trigger] s[j]) by {
            if j < s.len() - 1 {
                assert(s[j] == s.drop_last()[j]);
            }
        }
    }
}

/// `s` without white space at either end.
pub fn trim_chars(s: &[char]) -> (r: Vec<char>)
    ensures
        r@ == trimmed(s@),
{
    proof {
        lemma_lead(s@);
        lemma_tail_end(s@);
    }
    let mut a: usize = 0;
    while a < s.len() && is_white(s[a])
        invariant
            a <= lead(s@),
            forall|j: int| 0 <= j < lead(s@) ==> is_ws(#[trigger] s@[j]),
            lead(s@) < s@.len() ==> !is_ws(s@[lead(s@)]),
            lead(s@) <= s@.len(),
        decreases s.len() - a,
    {
        a = a + 1;
    }
    let mut b: usize = s.len();
    while b > a && is_white(s[b - 1])
        invariant
            a == lead(s@),
            tail_end(s@) <= b <= s@.len(),
            forall|j: int| tail_end(s@) <= j < s@.len() ==> is_ws(#[trigger] s@[j]),
            tail_end(s@) > lead(s@) ==> !is_ws(s@[tail_end(s@) - 1]),
            lead(s@) <= tail_end(s@),
        decreases b,
    {
        b = b - 1;
    }
    let mut r: Vec<char> = Vec::new();
    let mut i: usize = a;
    while i < b
        invariant
            a <= i <= b <= s@.len(),
            r@ == s@.subrange(a as int, i as int),
        decreases b - i,
    {
        r.push(s[i]);
        i = i + 1;
        assert(r@ =~= s@.subrange(a as int, i as int));
    }
    r
}

/// The pieces of `s` between white-space characters.
pub open spec fn ws_pieces(s: Seq<char>) -> Seq<Seq<char>>
    decreases s.len(),
{
    if s.len() == 0 {
        seq![Seq::<char>::empty()]
    } else {
        let p = ws_pieces(s.drop_last());
        if is_ws(s.last()) {
            p.push(Seq::<char>::empty())
        } else {
            p.update(p.len() - 1, p.last().push(s.last()))
        }
    }
}

/// The pieces of `ps` that are not empty, in order.
pub open spec fn nonempty(ps: Seq<Seq<char>>) -> Seq<Seq<char>>
    decreases ps.len(),
{
    if ps.len() == 0 {
        Seq::empty()
    } else if ps.last().len() > 0 {
        nonempty(ps.drop_last()).push(ps.last())
    } else {
        nonempty(ps.drop_last())
    }
}

/// The words of `s`: its runs of characters other than white space.
pub open spec fn words(s: Seq<char>) -> Seq<Seq<char>> {
    nonempty(ws_pieces(s))
}

proof fn lemma_ws_pieces_len(s: Seq<char>)
    ensures
        ws_pieces(s).len() >= 1,
    decreases s.len(),
{
    if s.len() > 0 {
        lemma_ws_pieces_len(s.drop_last());
    }
}

/// The words of `s`.
pub fn words_of(s: &[char]) -> (r: Vec<Vec<char>>)
    ensures
        char_views(r@) == words(s@),
{
    let mut out: Vec<Vec<char>> = Vec::new();
    let mut cur: Vec<char> = Vec::new();
    let mut i: usize = 0;
    assert(s@.take(0) =~= Seq::<char>::empty());
    assert(ws_pieces(s@.take(0)).drop_last() =~= Seq::<Seq<char>>::empty());
    while i < s.len()
        invariant
            i <= s.len(),
            ws_pieces(s@.take(i as int)).len() >= 1,
            char_views(out@) == nonempty(ws_pieces(s@.take(i as int)).drop_last()),
            cur@ == ws_pieces(s@.take(i as int)).last(),
        decreases s.len() - i,
    {
        let ghost t = s@.take(i + 1);
        let ghost p = ws_pieces(s@.take(i as int));
        assert(t.drop_last() =~= s@.take(i as int));
        assert(t.last() == s@[i as int]);
        let c = s[i];
        if is_white(c) {
            assert(ws_pieces(t).drop_last() =~= p);
            assert(p.drop_last().push(p.last()) =~= p);
            if cur.len() > 0 {
                let ghost before = out@;
                out.push(cur);
                assert(char_views(out@) =~= char_views(before).push(char_views(out@).last()));
            }
            cur = Vec::new();
        } else {
            cur.push(c);
            assert(ws_pieces(t).drop_last() =~= p.drop_last());
        }
        i = i + 1;
    }
    assert(s@.take(s.len() as int) =~= s@);
    let ghost p = ws_pieces(s@);
    assert(p.drop_last().push(p.last()) =~= p);
    if cur.len() > 0 {
        let ghost before = out@;
        out.push(cur);
        assert(char_views(out@) =~= char_views(before).push(char_views(out@).last()));
    }
    out
}

/// `w` without one leading `.`.
pub open spec fn strip_dot(w: Seq<char>) -> Seq<char> {
    if w.len() > 0 && w[0] == '.' {
        w.drop_first()
    } else {
        w
    }
}

/// Position `i` holds the first `c` of `s`.
pub open spec fn first_at(s: Seq<char>, c: char, i: int) -> bool {
    0 <= i < s.len() && s[i] == c && forall|j: int| 0 <= j < i ==> s[j] != c
}

/// What precedes and what follows the first `c` of `s`, if it has one.
pub open spec fn split_once(s: Seq<char>, c: char) -> Option<(Seq<char>, Seq<char>)> {
    if exists|i: int| first_at(s, c, i) {
        let i = choose|i: int| first_at(s, c, i);
        Some((s.take(i), s.skip(i + 1)))
    } else {
        None
    }
}

/// What precedes and what follows the first `c` of `s`, if it has one.
pub fn split_once_chars(s: &[char], c: char) -> (r: Option<(Vec<char>, Vec<char>)>)
    ensures
        match r {
            Some((a, b)) => split_once(s@, c) == Some((a@, b@)),
            None => split_once(s@, c) is None,
        },
{
    let mut i: usize = 0;
    while i < s.len() && s[i] != c
        invariant
            i <= s.len(),
            forall|j: int| 0 <= j < i ==> s@[j] != c,
        decreases s.len() - i,
    {
        i = i + 1;
    }
    if i == s.len() {
        return None;
    }
    proof {
        assert(first_at(s@, c, i as int));
        let k = choose|k: int| first_at(s@, c, k);
        if k < i {
            assert(s@[k] != c);
        } else if k > i {
            assert(s@[i as int] != c);
        }
    }
    let mut a: Vec<char> = Vec::new();
    let mut j: usize = 0;
    while j < i
        invariant
            j <= i < s.len(),
            a@ == s@.take(j as int),
        decreases i - j,
    {
        a.push(s[j]);
        j = j + 1;
        assert(a@ =~= s@.take(j as int));
    }
    let mut b: Vec<char> = Vec::new();
    let mut k: usize = i + 1;
    while k < s.len()
        invariant
            i < k <= s.len() || k == i + 1,
            k <= s.len(),
            b@ == s@.subrange(i + 1, k as int),
        decreases s.len() - k,
    {
        b.push(s[k]);
        k = k + 1;
        assert(b@ =~= s@.subrange(i + 1, k as int));
    }
    assert(s@.skip(i + 1) =~= s@.subrange(i + 1, s@.len() as int));
    Some((a, b))
}

/// What a line of a registry file holds.
pub enum LineV {
    /// A blank line or a comment.
    Skip,
    /// A language: code, display name and extensions.
    Entry(Seq<char>, Seq<char>, Seq<Seq<char>>),
    /// A line of neither kind, trimmed.
    Bad(Seq<char>),
}

/// How a line of a registry file reads: `code|Name|ext1 ext2 ...`, each
/// part trimmed, each extension without one leading `.`; blank lines and
/// those starting with `#` are skipped; a line without two `|` is bad.
pub open spec fn line_kind(line: Seq<char>) -> LineV {
    let t = trimmed(line);
    if t.len() == 0 || t[0] == '#' {
        LineV::Skip
    } else {
        match split_once(t, '|') {
            None => LineV::Bad(t),
            Some((code_part, rest)) => match split_once(rest, '|') {
                None => LineV::Bad(t),
                Some((name_part, exts_part)) => LineV::Entry(
                    trimmed(code_part),
                    trimmed(name_part),
                    words(exts_part).map_values(|w: Seq<char>| strip_dot(w)),
                ),
            },
        }
    }
}

/// The entries that `lines` define, in order.
pub open spec fn parsed_entries(lines: Seq<Seq<char>>) -> Seq<LineV>
    decreases lines.len(),
{
    if lines.len() == 0 {
        Seq::empty()
    } else {
        let prev = parsed_entries(lines.drop_last());
        if line_kind(lines.last()) is Entry {
            prev.push(line_kind(lines.last()))
        } else {
            prev
        }
    }
}

/// The bad lines among `lines`, trimmed, in order.
pub open spec fn bad_lines(lines: Seq<Seq<char>>) -> Seq<Seq<char>>
    decreases lines.len(),
{
    if lines.len() == 0 {
        Seq::empty()
    } else {
        let prev = bad_lines(lines.drop_last());
        match line_kind(lines.last()) {
            LineV::Bad(t) => prev.push(t),
            _ => prev,
        }
    }
}

/// Entry `e` is what the line reading `v` defines.
pub open spec fn entry_matches(e: LangEntry, v: LineV) -> bool {
    match v {
        LineV::Entry(code, name, exts) => is_entry(e, code, name, exts),
        _ => false,
    }
}

/// The extensions of a registry line's last part.
fn exts_of(exts_part: &[char]) -> (r: Vec<String>)
    ensures
        views(r@) == words(exts_part@).map_values(|w: Seq<char>| strip_dot(w)),
{
    let ws = words_of(exts_part);
    let mut out: Vec<String> = Vec::new();
    let mut i: usize = 0;
    while i < ws.len()
        invariant
            i <= ws@.len(),
            char_views(ws@) == words(exts_part@),
            views(out@) == char_views(ws@).take(i as int).map_values(|w: Seq<char>| strip_dot(w)),
        decreases ws@.len() - i,
    {
        let w = &ws[i];
        let e = if w.len() > 0 && w[0] == '.' {
            let mut v: Vec<char> = Vec::new();
            let mut j: usize = 1;
            while j < w.len()
                invariant
                    1 <= j <= w@.len(),
                    v@ == w@.subrange(1, j as int),
                decreases w@.len() - j,
            {
                v.push(w[j]);
                j = j + 1;
                assert(v@ =~= w@.subrange(1, j as int));
            }
            assert(w@.drop_first() =~= w@.subrange(1, w@.len() as int));
            string_of(v.as_slice())
        } else {
            string_of(w.as_slice())
        };
        let ghost before = out@;
        out.push(e);
        assert(views(out@) =~= views(before).push(e@));
        assert(char_views(ws@).take(i + 1).map_values(|w: Seq<char>| strip_dot(w)) =~= char_views(
            ws@,
        ).take(i as int).map_values(|w: Seq<char>| strip_dot(w)).push(strip_dot(w@)));
        i = i + 1;
    }
    assert(char_views(ws@).take(ws@.len() as int) =~= char_views(ws@));
    out
}

/// What one line of a registry file holds: `Ok(None)` for a line to skip,
/// `Ok(Some(entry))` for a language, `Err(line)` for a bad line.
pub fn parse_line(line: &[char]) -> (r: Result<Option<LangEntry>, String>)
    ensures
        match line_kind(line@) {
            LineV::Skip => r == Ok::<Option<LangEntry>, String>(None),
            LineV::Entry(_, _, _) => r is Ok && r->Ok_0 is Some && entry_matches(r->Ok_0->0, line_kind(line@)),
            LineV::Bad(t) => r is Err && r->Err_0@ == t,
        },
{
    let t = trim_chars(line);
    if t.len() == 0 || t[0] == '#' {
        return Ok(None);
    }
    let (code_part, rest) = match split_once_chars(t.as_slice(), '|') {
        None => return Err(string_of(t.as_slice())),
        Some(parts) => parts,
    };
    let (name_part, exts_part) = match split_once_chars(rest.as_slice(), '|') {
        None => return Err(string_of(t.as_slice())),
        Some(parts) => parts,
    };
    let code = trim_chars(code_part.as_slice());
    let name = trim_chars(name_part.as_slice());
    let exts = exts_of(exts_part.as_slice());
    Ok(Some(LangEntry { code: string_of(code.as_slice()), data: LangData { name: string_of(name.as_slice()), exts } }))
}

/// The languages that a registry file's text defines, in order, and its bad
/// lines.
pub fn parse_registry_text(text: &str) -> (r: (Vec<LangEntry>, Vec<String>))
    ensures
        r.0@.len() == parsed_entries(split_on(text@, '\n')).len(),
        forall|i: int|
            0 <= i < r.0@.len() ==> entry_matches(#[trigger] r.0@[i], parsed_entries(split_on(text@, '\n'))[i]),
        views(r.1@) == bad_lines(split_on(text@, '\n')),
{
    let chars = chars_of(text);
    let lines = split_chars(chars.as_slice(), '\n');
    let ghost ls = char_views(lines@);
    let mut entries: Vec<LangEntry> = Vec::new();
    let mut bad: Vec<String> = Vec::new();
    let mut i: usize = 0;
    assert(ls.take(0) =~= Seq::<Seq<char>>::empty());
    while i < lines.len()
        invariant
            ls == char_views(lines@),
            i <= lines@.len(),
            entries@.len() == parsed_entries(ls.take(i as int)).len(),
            forall|k: int|
                0 <= k < entries@.len() ==> entry_matches(#[trigger] entries@[k], parsed_entries(ls.take(i as int))[k]),
            views(bad@) == bad_lines(ls.take(i as int)),
        decreases lines@.len() - i,
    {
        assert(ls.take(i + 1).drop_last() =~= ls.take(i as int));
        assert(ls.take(i + 1).last() == lines@[i as int]@);
        match parse_line(lines[i].as_slice()) {
            Ok(None) => {},
            Ok(Some(e)) => {
                let ghost before = entries@;
                entries.push(e);
                assert forall|k: int| 0 <= k < entries@.len() implies entry_matches(
                    #[trigger] entries@[k],
                    parsed_entries(ls.take(i + 1))[k],
                ) by {
                    if k < before.len() {
                        assert(entries@[k] == before[k]);
                    }
                }
            },
            Err(t) => {
                let ghost before = bad@;
                bad.push(t);
                assert(views(bad@) =~= views(before).push(t@));
            },
        }
        i = i + 1;
    }
    assert(ls.take(lines@.len() as int) =~= ls);
    (entries, bad)
}

/// `es` with `e` in place of the entry of the same code, or with `e`
/// appended when no entry has that code.
pub open spec fn with_entry(es: Seq<LangEntry>, e: LangEntry) -> Seq<LangEntry> {
    if exists|i: int| 0 <= i < es.len() && #[trigger] es[i].code@ == e.code@ {
        es.update(choose|i: int| 0 <= i < es.len() && #[trigger] es[i].code@ == e.code@, e)
    } else {
        es.push(e)
    }
}

/// `es` with the entries of `new` put in, one after the other: a later
/// entry replaces an earlier one of the same code.
pub open spec fn merged(es: Seq<LangEntry>, new: Seq<LangEntry>) -> Seq<LangEntry>
    decreases new.len(),
{
    if new.len() == 0 {
        es
    } else {
        with_entry(merged(es, new.drop_last()), new.last())
    }
}

/// Puts the entries of `new` into the registry, in order; a later entry
/// replaces an earlier one of the same code.
pub fn merge_entries(registry: Registry, new: Vec<LangEntry>) -> (r: Registry)
    requires
        registry.wf(),
    ensures
        r.wf(),
        r.entries@ == merged(registry.entries@, new@),
{
    let ghost orig = new@;
    let ghost base = registry.entries@;
    let mut entries = registry.entries;
    let mut rest = new;
    assert(rest@.len() == rest.len());
    let mut i: usize = 0;
    assert(orig.take(0) =~= Seq::<LangEntry>::empty());
    assert(orig.skip(0) =~= orig);
    while rest.len() > 0
        invariant
            i <= orig.len() <= usize::MAX,
            rest@ == orig.skip(i as int),
            codes_unique(entries@),
            entries@ == merged(base, orig.take(i as int)),
        decreases rest@.len(),
    {
        assert(orig.skip(i as int).len() == orig.len() - i);
        assert(i < orig.len());
        assert(orig.take(i + 1).drop_last() =~= orig.take(i as int));
        assert(orig.skip(i as int)[0] == orig[i as int]);
        let e = rest.remove(0);
        assert(rest@ =~= orig.skip(i + 1));
        let mut j: usize = 0;
        while j < entries.len() && entries[j].code != e.code
            invariant
                j <= entries@.len(),
                forall|k: int| 0 <= k < j ==> entries@[k].code@ != e.code@,
            decreases entries@.len() - j,
        {
            j = j + 1;
        }
        let ghost before = entries@;
        if j < entries.len() {
            proof {
                assert(before[j as int].code@ == e.code@);
                let c = choose|k: int| 0 <= k < before.len() && #[trigger] before[k].code@ == e.code@;
                if c != j {
                    assert(before[c].code@ != before[j as int].code@);
                }
            }
            entries.set(j, e);
            assert forall|a: int, b: int|
                0 <= a < entries@.len() && 0 <= b < entries@.len() && a != b implies #[trigger] entries@[a].code@
                    != #[trigger] entries@[b].code@ by {
                if a != j && b != j {
                    assert(entries@[a] == before[a] && entries@[b] == before[b]);
                } else if a == j {
                    assert(entries@[b] == before[b]);
                    assert(before[b].code@ != before[j as int].code@);
                } else {
                    assert(entries@[a] == before[a]);
                    assert(before[a].code@ != before[j as int].code@);
                }
            }
        } else {
            entries.push(e);
            assert forall|a: int, b: int|
                0 <= a < entries@.len() && 0 <= b < entries@.len() && a != b implies #[trigger] entries@[a].code@
                    != #[trigger] entries@[b].code@ by {
                if a < before.len() && b < before.len() {
                    assert(entries@[a] == before[a] && entries@[b] == before[b]);
                } else if a < before.len() {
                    assert(entries@[a] == before[a]);
                } else {
                    assert(entries@[b] == before[b]);
                }
            }
        }
        i = i + 1;
    }
    assert(orig.take(orig.len() as int) =~= orig);
    Registry { entries }
}

} // verus!
