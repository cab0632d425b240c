use vstd::prelude::*;
use crate::sort::{key_view, lemma_sorted_unique, sort_keyed, sorted_by, Part, PartV};
use crate::text::{chars_of, lower_of, lowercase};
use crate::types::{FileData, Registry};

verus! {

broadcast use vstd::seq_lib::group_to_multiset_ensures;

/// How many files, and how many lines in all, one language came to.
pub struct LangTotal {
    pub code: String,
    pub files: usize,
    pub lines: usize,
}

/// The lines of all records of language `code`, added up.
pub open spec fn lines_for(recs: Seq<FileData>, code: Seq<char>) -> nat
    decreases recs.len(),
{
    if recs.len() == 0 {
        0
    } else {
        lines_for(recs.drop_last(), code) + if recs.last().lang@ == code {
            recs.last().lines as nat
        } else {
            0
        }
    }
}

/// The number of records of language `code`.
pub open spec fn files_for(recs: Seq<FileData>, code: Seq<char>) -> nat
    decreases recs.len(),
{
    if recs.len() == 0 {
        0
    } else {
        files_for(recs.drop_last(), code) + if recs.last().lang@ == code {
            1nat
        } else {
            0
        }
    }
}

/// The lines of all records, added up.
pub open spec fn total_lines(recs: Seq<FileData>) -> nat
    decreases recs.len(),
{
    if recs.len() == 0 {
        0
    } else {
        total_lines(recs.drop_last()) + recs.last().lines as nat
    }
}

/// No two totals share a code.
pub open spec fn totals_distinct(ts: Seq<LangTotal>) -> bool {
    forall|i: int, j: int|
        #![trigger ts[i], ts[j]]
        0 <= i < ts.len() && 0 <= j < ts.len() && i != j ==> ts[i].code@ != ts[j].code@
}

/// `ts` holds, once each, a total for every language that some record has,
/// and nothing else: for each, the number of its records and the sum of
/// their lines. Records without a language are left out.
pub open spec fn totals_of(ts: Seq<LangTotal>, recs: Seq<FileData>) -> bool {
    &&& totals_distinct(ts)
    &&& forall|i: int|
        0 <= i < ts.len() ==> (#[trigger] ts[i]).code@.len() > 0 && ts[i].files == files_for(
            recs,
            ts[i].code@,
        ) && ts[i].lines == lines_for(recs, ts[i].code@) && ts[i].files > 0
    &&& forall|c: Seq<char>|
        c.len() > 0 && #[trigger] files_for(recs, c) > 0 ==> exists|i: int|
            0 <= i < ts.len() && (#[trigger] ts[i]).code@ == c
}

proof fn lemma_bounds(recs: Seq<FileData>, code: Seq<char>)
    ensures
        files_for(recs, code) <= recs.len(),
        lines_for(recs, code) <= total_lines(recs),
    decreases recs.len(),
{
    if recs.len() > 0 {
        lemma_bounds(recs.drop_last(), code);
    }
}

pub proof fn lemma_prefix_total(recs: Seq<FileData>, k: int)
    requires
        0 <= k <= recs.len(),
    ensures
        total_lines(recs.take(k)) <= total_lines(recs),
    decreases recs.len(),
{
    if k < recs.len() {
        assert(recs.take(k) =~= recs.drop_last().take(k));
        lemma_prefix_total(recs.drop_last(), k);
    } else {
        assert(recs.take(k) =~= recs);
    }
}

/// Folds the records into one total per language; records with an empty
/// language are dropped.
pub fn aggregate(records: &Vec<FileData>) -> (r: Vec<LangTotal>)
    requires
        total_lines(records@) <= usize::MAX,
    ensures
        totals_of(r@, records@),
{
    let ghost recs = records@;
    let mut out: Vec<LangTotal> = Vec::new();
    let mut k: usize = 0;
    assert(recs.take(0) =~= Seq::<FileData>::empty());
    while k < records.len()
        invariant
            recs == records@,
            k <= recs.len(),
            total_lines(recs) <= usize::MAX,
            totals_of(out@, recs.take(k as int)),
        decreases recs.len() - k,
    {
        let ghost t = recs.take(k + 1);
        let ghost before = out@;
        assert(t.drop_last() =~= recs.take(k as int));
        assert(t.last() == recs[k as int]);
        proof {
            lemma_prefix_total(recs, k + 1);
        }
        let rec = &records[k];
        if rec.lang.as_str().is_empty() {
            assert forall|c: Seq<char>| c.len() > 0 && #[trigger] files_for(t, c) > 0 implies exists|
                i: int,
            | 0 <= i < out@.len() && (#[trigger] out@[i]).code@ == c by {
                assert(files_for(t, c) == files_for(recs.take(k as int), c));
            }
        } else {
            let mut j: usize = 0;
            while j < out.len() && out[j].code != rec.lang
                invariant
                    j <= out@.len(),
                    forall|i: int| 0 <= i < j ==> out@[i].code@ != rec.lang@,
                decreases out@.len() - j,
            {
                j = j + 1;
            }
            proof {
                lemma_bounds(t, rec.lang@);
            }
            if j < out.len() {
                let nt = LangTotal {
                    code: rec.lang.clone(),
                    files: out[j].files + 1,
                    lines: out[j].lines + rec.lines,
                };
                out.set(j, nt);
                assert forall|i: int| 0 <= i < out@.len() && i != j implies out@[i] == before[i] by {}
            } else {
                let nt = LangTotal { code: rec.lang.clone(), files: 1, lines: rec.lines };
                out.push(nt);
                assert(files_for(recs.take(k as int), rec.lang@) == 0) by {
                    if files_for(recs.take(k as int), rec.lang@) > 0 {
                        let i = choose|i: int| 0 <= i < before.len() && (#[trigger] before[i]).code@ == rec.lang@;
                        assert(before[i].code@ != rec.lang@);
                    }
                }
                assert(lines_for(recs.take(k as int), rec.lang@) == 0) by {
                    lemma_zero_files_zero_lines(recs.take(k as int), rec.lang@);
                }
            }
            assert forall|c: Seq<char>| c.len() > 0 && #[trigger] files_for(t, c) > 0 implies exists|
                i: int,
            | 0 <= i < out@.len() && (#[trigger] out@[i]).code@ == c by {
                if c != rec.lang@ {
                    assert(files_for(t, c) == files_for(recs.take(k as int), c));
                    let i = choose|i: int| 0 <= i < before.len() && (#[trigger] before[i]).code@ == c;
                    assert(out@[i] == before[i]);
                    assert(out@[i].code@ == c);
                } else {
                    assert(out@[j as int].code@ == c);
                }
            }
        }
        k = k + 1;
    }
    assert(recs.take(recs.len() as int) =~= recs);
    out
}

proof fn lemma_zero_files_zero_lines(recs: Seq<FileData>, code: Seq<char>)
    requires
        files_for(recs, code) == 0,
    ensures
        lines_for(recs, code) == 0,
    decreases recs.len(),
{
    if recs.len() > 0 {
        lemma_zero_files_zero_lines(recs.drop_last(), code);
    }
}

/// The key by which a language's name sorts: the lower-case form of its
/// display name (empty for a code the registry does not know).
pub open spec fn name_key(reg: Registry, code: Seq<char>) -> Seq<char> {
    if reg.has_code(code) {
        lower_of(reg.name_of(code))
    } else {
        Seq::empty()
    }
}

/// The sort key of a total: by name, then lines, then code; or, when sorting
/// by lines, by lines, then name, then code.
pub open spec fn total_key(reg: Registry, bylines: bool, t: LangTotal) -> Seq<PartV> {
    if bylines {
        seq![PartV::Num(t.lines as nat), PartV::Text(name_key(reg, t.code@)), PartV::Text(t.code@)]
    } else {
        seq![PartV::Text(name_key(reg, t.code@)), PartV::Num(t.lines as nat), PartV::Text(t.code@)]
    }
}

pub open spec fn total_order(reg: Registry, bylines: bool) -> spec_fn(LangTotal) -> Seq<PartV> {
    |t: LangTotal| total_key(reg, bylines, t)
}

/// The sort key of a file record: language code first, then lines, the
/// lower-case name and the name; or, when not sorting by lines, the
/// lower-case name, lines and the name.
pub open spec fn file_key(bylines: bool, f: FileData) -> Seq<PartV> {
    if bylines {
        seq![
            PartV::Text(f.lang@),
            PartV::Num(f.lines as nat),
            PartV::Text(lower_of(f.filename@)),
            PartV::Text(f.filename@),
        ]
    } else {
        seq![
            PartV::Text(f.lang@),
            PartV::Text(lower_of(f.filename@)),
            PartV::Num(f.lines as nat),
            PartV::Text(f.filename@),
        ]
    }
}

pub open spec fn file_order(bylines: bool) -> spec_fn(FileData) -> Seq<PartV> {
    |f: FileData| file_key(bylines, f)
}

fn name_key_of(registry: &Registry, code: &String) -> (r: Vec<char>)
    requires
        registry.wf(),
    ensures
        r@ == name_key(*registry, code@),
{
    match registry.find(code) {
        Some(i) => {
            let l = lowercase(registry.entries[i].data.name.as_str());
            chars_of(l.as_str())
        },
        None => Vec::new(),
    }
}

/// The totals in report order (see `total_key`).
pub fn get_sorted_totals(totals: Vec<LangTotal>, registry: &Registry, sortbylines: bool) -> (r: Vec<LangTotal>)
    requires
        registry.wf(),
    ensures
        r@.to_multiset() == totals@.to_multiset(),
        sorted_by(r@, total_order(*registry, sortbylines)),
{
    let ghost kf = total_order(*registry, sortbylines);
    let mut keys: Vec<Vec<Part>> = Vec::new();
    let mut i: usize = 0;
    while i < totals.len()
        invariant
            kf == total_order(*registry, sortbylines),
            registry.wf(),
            i <= totals@.len(),
            keys@.len() == i,
            forall|j: int| 0 <= j < i ==> key_view(#[trigger] keys@[j]@) == kf(totals@[j]),
        decreases totals@.len() - i,
    {
        let t = &totals[i];
        let name = name_key_of(registry, &t.code);
        let code = chars_of(t.code.as_str());
        let key = if sortbylines {
            vec![Part::Num(t.lines), Part::Text(name), Part::Text(code)]
        } else {
            vec![Part::Text(name), Part::Num(t.lines), Part::Text(code)]
        };
        assert(key_view(key@) =~= kf(totals@[i as int]));
        keys.push(key);
        i = i + 1;
    }
    sort_keyed(totals, keys, Ghost(kf))
}

/// The file records in report order (see `file_key`).
pub fn sort_file_data(file_data: Vec<FileData>, sortbylines: bool) -> (r: Vec<FileData>)
    ensures
        r@.to_multiset() == file_data@.to_multiset(),
        sorted_by(r@, file_order(sortbylines)),
{
    let ghost kf = file_order(sortbylines);
    let mut keys: Vec<Vec<Part>> = Vec::new();
    let mut i: usize = 0;
    while i < file_data.len()
        invariant
            kf == file_order(sortbylines),
            i <= file_data@.len(),
            keys@.len() == i,
            forall|j: int| 0 <= j < i ==> key_view(#[trigger] keys@[j]@) == kf(file_data@[j]),
        decreases file_data@.len() - i,
    {
        let f = &file_data[i];
        let lang = chars_of(f.lang.as_str());
        let low = lowercase(f.filename.as_str());
        let lower = chars_of(low.as_str());
        let name = chars_of(f.filename.as_str());
        let key = if sortbylines {
            vec![Part::Text(lang), Part::Num(f.lines), Part::Text(lower), Part::Text(name)]
        } else {
            vec![Part::Text(lang), Part::Text(lower), Part::Num(f.lines), Part::Text(name)]
        };
        assert(key_view(key@) =~= kf(file_data@[i as int]));
        keys.push(key);
        i = i + 1;
    }
    sort_keyed(file_data, keys, Ghost(kf))
}

/// Sorting totals whose codes are distinct does not depend on the order in
/// which they come: any two sorted arrangements of the same totals are equal.
pub proof fn lemma_sorted_totals_unique(
    reg: Registry,
    bylines: bool,
    a: Seq<LangTotal>,
    b: Seq<LangTotal>,
    ra: Seq<LangTotal>,
    rb: Seq<LangTotal>,
)
    requires
        totals_distinct(a),
        b.to_multiset() == a.to_multiset(),
        ra.to_multiset() == a.to_multiset(),
        rb.to_multiset() == b.to_multiset(),
        sorted_by(ra, total_order(reg, bylines)),
        sorted_by(rb, total_order(reg, bylines)),
    ensures
        ra == rb,
{
    let kf = total_order(reg, bylines);
    assert forall|x: LangTotal, y: LangTotal|
        ra.contains(x) && ra.contains(y) && kf(x) == kf(y) implies x == y by {
        assert(ra.to_multiset().count(x) > 0 && ra.to_multiset().count(y) > 0);
        assert(a.contains(x) && a.contains(y));
        let i = choose|i: int| 0 <= i < a.len() && a[i] == x;
        let j = choose|j: int| 0 <= j < a.len() && a[j] == y;
        assert(kf(x)[2] == kf(y)[2]);
        assert(x.code@ == y.code@);
        if i != j {
            assert(a[i].code@ != a[j].code@);
        }
    }
    lemma_sorted_unique(ra, rb, kf);
}

/// Sorting sorted totals with distinct codes leaves them as they are.
pub proof fn lemma_sort_totals_twice(reg: Registry, bylines: bool, a: Seq<LangTotal>, ra: Seq<LangTotal>, rra: Seq<LangTotal>)
    requires
        totals_distinct(a),
        ra.to_multiset() == a.to_multiset(),
        sorted_by(ra, total_order(reg, bylines)),
        rra.to_multiset() == ra.to_multiset(),
        sorted_by(rra, total_order(reg, bylines)),
    ensures
        rra == ra,
{
    lemma_sorted_totals_unique(reg, bylines, a, ra, ra, rra);
}

/// The records of language `code`, counted by `files_for`, are exactly those
/// that a filter on the language keeps.
pub proof fn lemma_files_for_is_count(recs: Seq<FileData>, code: Seq<char>)
    ensures
        files_for(recs, code) == recs.filter(|r: FileData| r.lang@ == code).len(),
    decreases recs.len(),
{
    reveal(Seq::filter);
    if recs.len() > 0 {
        lemma_files_for_is_count(recs.drop_last(), code);
    }
}

/// Each language with records has exactly one total, which holds the number
/// of its records and the sum of their lines; a language without records,
/// or the empty language, has none.
pub proof fn lemma_totals_per_language(ts: Seq<LangTotal>, recs: Seq<FileData>, code: Seq<char>)
    requires
        totals_of(ts, recs),
    ensures
        code.len() > 0 && files_for(recs, code) > 0 ==> exists|i: int|
            0 <= i < ts.len() && #[trigger] ts[i].code@ == code && ts[i].files == files_for(recs, code)
                && ts[i].lines == lines_for(recs, code),
        forall|i: int, j: int|
            0 <= i < ts.len() && 0 <= j < ts.len() && #[trigger] ts[i].code@ == code && #[trigger] ts[j].code@
                == code ==> i == j,
        code.len() == 0 || files_for(recs, code) == 0 ==> forall|i: int|
            0 <= i < ts.len() ==> #[trigger] ts[i].code@ != code,
{
    if code.len() > 0 && files_for(recs, code) > 0 {
        let i = choose|i: int| 0 <= i < ts.len() && (#[trigger] ts[i]).code@ == code;
        assert(ts[i].code@ == code);
    }
    assert forall|i: int| 0 <= i < ts.len() && (code.len() == 0 || files_for(recs, code) == 0) implies #[trigger] ts[i].code@
        != code by {
        assert(ts[i].code@.len() > 0 && ts[i].files > 0);
    }
    assert forall|i: int, j: int|
        0 <= i < ts.len() && 0 <= j < ts.len() && #[trigger] ts[i].code@ == code && #[trigger] ts[j].code@ == code implies i
        == j by {
        if i != j {
            assert(ts[i].code@ != ts[j].code@);
        }
    }
}

proof fn lemma_total_remove(s: Seq<FileData>, j: int)
    requires
        0 <= j < s.len(),
    ensures
        total_lines(s) == total_lines(s.remove(j)) + s[j].lines,
    decreases s.len(),
{
    if j == s.len() - 1 {
        assert(s.remove(j) =~= s.drop_last());
    } else {
        assert(s.remove(j).drop_last() =~= s.drop_last().remove(j));
        assert(s.remove(j).last() == s.last());
        lemma_total_remove(s.drop_last(), j);
    }
}

/// Rearranging records does not change their total of lines.
pub proof fn lemma_total_permutation(a: Seq<FileData>, b: Seq<FileData>)
    requires
        a.to_multiset() == b.to_multiset(),
    ensures
        total_lines(a) == total_lines(b),
    decreases a.len(),
{
    a.to_multiset_ensures();
    b.to_multiset_ensures();
    if a.len() > 0 {
        let x = a.last();
        assert(a.to_multiset().count(x) > 0);
        assert(b.contains(x));
        let j = choose|j: int| 0 <= j < b.len() && b[j] == x;
        assert(a.remove(a.len() - 1) =~= a.drop_last());
        a.to_multiset_ensures();
        b.to_multiset_ensures();
        assert(a.drop_last().to_multiset() == b.remove(j).to_multiset());
        lemma_total_permutation(a.drop_last(), b.remove(j));
        lemma_total_remove(b, j);
    } else {
        assert(b.len() == 0);
    }
}

} // verus!
