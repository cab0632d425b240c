use vstd::prelude::*;
use crate::path::{base_name, ext_of, extension, file_name};
use crate::text::{chars_of, contains_str, has_str, lemma_seq_lt_irreflexive, lemma_seq_lt_transitive, seq_lt, string_of, views};
use crate::types::{codes_unique, LangData, LangEntry, Registry};

verus! {

/// Entry `e` has the code, display name and extensions given.
pub open spec fn is_entry(e: LangEntry, code: Seq<char>, name: Seq<char>, exts: Seq<Seq<char>>) -> bool {
    e.code@ == code && e.data.name@ == name && views(e.data.exts@) == exts
}

/// Entry `e` is of a selected language and claims `ext`.
pub open spec fn selected_claim(e: LangEntry, langs: Seq<String>, ext: Seq<char>) -> bool {
    has_str(e.data.exts@, ext) && has_str(langs, e.code@)
}

/// The code of the first of `entries` whose language is among `langs` and
/// that claims `ext`, if any.
pub open spec fn first_claim(entries: Seq<LangEntry>, langs: Seq<String>, ext: Seq<char>) -> Option<Seq<char>>
    decreases entries.len(),
{
    if entries.len() == 0 {
        None
    } else if selected_claim(entries[0], langs, ext) {
        Some(entries[0].code@)
    } else {
        first_claim(entries.drop_first(), langs, ext)
    }
}

/// The language that the file at `path` has by its extension: the first
/// registry entry, in registry order, that is of a selected language and
/// claims the extension.
pub open spec fn lang_of_name(path: Seq<char>, reg: &Registry, langs: Seq<String>) -> Option<Seq<char>> {
    match base_name(path) {
        None => None,
        Some(n) => match ext_of(n) {
            None => None,
            Some(e) => first_claim(reg.entries@, langs, e),
        },
    }
}

fn entry(code: &str, name: &str, exts: Vec<&str>) -> (r: LangEntry)
    ensures
        r.code@ == code@,
        r.data.name@ == name@,
        views(r.data.exts@) == exts@.map_values(|e: &str| e@),
{
    LangEntry { code: code.to_owned(), data: LangData::new(name, exts) }
}

/// Codes strictly increase along `entries`.
pub open spec fn codes_ascending(entries: Seq<LangEntry>) -> bool {
    forall|i: int, j: int|
        0 <= i < j < entries.len() ==> seq_lt(#[trigger] entries[i].code@, #[trigger] entries[j].code@)
}

proof fn lemma_ascending_wf(entries: Seq<LangEntry>)
    requires
        codes_ascending(entries),
    ensures
        codes_unique(entries),
{
    assert forall|i: int, j: int|
        0 <= i < entries.len() && 0 <= j < entries.len() && i != j implies #[trigger] entries[i].code@
            != #[trigger] entries[j].code@ by {
        lemma_seq_lt_irreflexive(entries[i].code@);
        if i < j {
            assert(seq_lt(entries[i].code@, entries[j].code@));
        } else {
            assert(seq_lt(entries[j].code@, entries[i].code@));
        }
    }
}

/// Appends `e`, whose code comes after every code already in `v`.
fn push_ascending(v: &mut Vec<LangEntry>, e: LangEntry)
    requires
        codes_ascending(old(v)@),
        old(v)@.len() > 0 ==> seq_lt(old(v)@.last().code@, e.code@),
    ensures
        final(v)@ == old(v)@.push(e),
        codes_ascending(final(v)@),
{
    let ghost before = v@;
    v.push(e);
    proof {
        assert forall|i: int, j: int| 0 <= i < j < v@.len() implies seq_lt(
            #[trigger] v@[i].code@,
            #[trigger] v@[j].code@,
        ) by {
            if j == v@.len() - 1 && i < j - 1 {
                assert(seq_lt(before[i].code@, before.last().code@));
                lemma_seq_lt_transitive(v@[i].code@, before.last().code@, e.code@);
            }
        }
    }
}

/// The languages known without any registry file.
pub fn initial_data_for_lang() -> (r: Registry)
    ensures
        r.wf(),
        r.entries@.len() == 13,
        is_entry(r.entries@[0], "c"@, "C"@, seq!["h"@, "c"@]),
        is_entry(r.entries@[1], "cpp"@, "C++"@, seq!["hpp"@, "hxx"@, "cpp"@, "cxx"@]),
        is_entry(r.entries@[2], "d"@, "D"@, seq!["d"@]),
        is_entry(r.entries@[3], "go"@, "Go"@, seq!["go"@]),
        is_entry(r.entries@[4], "java"@, "Java"@, seq!["java"@]),
        is_entry(r.entries@[5], "jl"@, "Julia"@, seq!["jl"@]),
        is_entry(r.entries@[6], "nim"@, "Nim"@, seq!["nim"@]),
        is_entry(r.entries@[7], "pl"@, "Perl"@, seq!["pl"@, "PL"@, "pm"@]),
        is_entry(r.entries@[8], "py"@, "Python"@, seq!["py"@, "pyw"@]),
        is_entry(r.entries@[9], "rb"@, "Ruby"@, seq!["rb"@]),
        is_entry(r.entries@[10], "rs"@, "Rust"@, seq!["rs"@]),
        is_entry(r.entries@[11], "tcl"@, "Tcl"@, seq!["tcl"@]),
        is_entry(r.entries@[12], "vala"@, "Vala"@, seq!["vala"@]),
{
    let mut v: Vec<LangEntry> = Vec::new();
    let e0 = entry("c", "C", vec!["h", "c"]);
    assert(views(e0.data.exts@) =~= seq!["h"@, "c"@]);
    push_ascending(&mut v, e0);
    let e1 = entry("cpp", "C++", vec!["hpp", "hxx", "cpp", "cxx"]);
    assert(views(e1.data.exts@) =~= seq!["hpp"@, "hxx"@, "cpp"@, "cxx"@]);
    proof {
        reveal_strlit("c");
        reveal_strlit("cpp");
        reveal_with_fuel(seq_lt, 3);
    }
    push_ascending(&mut v, e1);
    let e2 = entry("d", "D", vec!["d"]);
    assert(views(e2.data.exts@) =~= seq!["d"@]);
    proof {
        reveal_strlit("cpp");
        reveal_strlit("d");
        reveal_with_fuel(seq_lt, 3);
    }
    push_ascending(&mut v, e2);
    let e3 = entry("go", "Go", vec!["go"]);
    assert(views(e3.data.exts@) =~= seq!["go"@]);
    proof {
        reveal_strlit("d");
        reveal_strlit("go");
        reveal_with_fuel(seq_lt, 3);
    }
    push_ascending(&mut v, e3);
    let e4 = entry("java", "Java", vec!["java"]);
    assert(views(e4.data.exts@) =~= seq!["java"@]);
    proof {
        reveal_strlit("go");
        reveal_strlit("java");
        reveal_with_fuel(seq_lt, 3);
    }
    push_ascending(&mut v, e4);
    let e5 = entry("jl", "Julia", vec!["jl"]);
    assert(views(e5.data.exts@) =~= seq!["jl"@]);
    proof {
        reveal_strlit("java");
        reveal_strlit("jl");
        reveal_with_fuel(seq_lt, 3);
    }
    push_ascending(&mut v, e5);
    let e6 = entry("nim", "Nim", vec!["nim"]);
    assert(views(e6.data.exts@) =~= seq!["nim"@]);
    proof {
        reveal_strlit("jl");
        reveal_strlit("nim");
        reveal_with_fuel(seq_lt, 3);
    }
    push_ascending(&mut v, e6);
    let e7 = entry("pl", "Perl", vec!["pl", "PL", "pm"]);
    assert(views(e7.data.exts@) =~= seq!["pl"@, "PL"@, "pm"@]);
    proof {
        reveal_strlit("nim");
        reveal_strlit("pl");
        reveal_with_fuel(seq_lt, 3);
    }
    push_ascending(&mut v, e7);
    let e8 = entry("py", "Python", vec!["py", "pyw"]);
    assert(views(e8.data.exts@) =~= seq!["py"@, "pyw"@]);
    proof {
        reveal_strlit("pl");
        reveal_strlit("py");
        reveal_with_fuel(seq_lt, 3);
    }
    push_ascending(&mut v, e8);
    let e9 = entry("rb", "Ruby", vec!["rb"]);
    assert(views(e9.data.exts@) =~= seq!["rb"@]);
    proof {
        reveal_strlit("py");
        reveal_strlit("rb");
        reveal_with_fuel(seq_lt, 3);
    }
    push_ascending(&mut v, e9);
    let e10 = entry("rs", "Rust", vec!["rs"]);
    assert(views(e10.data.exts@) =~= seq!["rs"@]);
    proof {
        reveal_strlit("rb");
        reveal_strlit("rs");
        reveal_with_fuel(seq_lt, 3);
    }
    push_ascending(&mut v, e10);
    let e11 = entry("tcl", "Tcl", vec!["tcl"]);
    assert(views(e11.data.exts@) =~= seq!["tcl"@]);
    proof {
        reveal_strlit("rs");
        reveal_strlit("tcl");
        reveal_with_fuel(seq_lt, 3);
    }
    push_ascending(&mut v, e11);
    let e12 = entry("vala", "Vala", vec!["vala"]);
    assert(views(e12.data.exts@) =~= seq!["vala"@]);
    proof {
        reveal_strlit("tcl");
        reveal_strlit("vala");
        reveal_with_fuel(seq_lt, 3);
    }
    push_ascending(&mut v, e12);
    proof {
        lemma_ascending_wf(v@);
    }
    Registry { entries: v }
}

/// The code of the first entry, in registry order, of a language among
/// `langs` that claims `ext`.
pub fn lang_for_ext(registry: &Registry, langs: &Vec<String>, ext: &String) -> (r: Option<String>)
    ensures
        r is Some <==> first_claim(registry.entries@, langs@, ext@) is Some,
        r is Some ==> r->0@ == first_claim(registry.entries@, langs@, ext@)->0,
{
    let ghost all = registry.entries@;
    let mut i: usize = 0;
    assert(all.skip(0) =~= all);
    while i < registry.entries.len()
        invariant
            all == registry.entries@,
            i <= all.len(),
            first_claim(all, langs@, ext@) == first_claim(all.skip(i as int), langs@, ext@),
        decreases all.len() - i,
    {
        assert(all.skip(i as int).drop_first() =~= all.skip(i + 1));
        assert(all.skip(i as int)[0] == all[i as int]);
        if contains_str(&registry.entries[i].data.exts, ext) && contains_str(langs, &registry.entries[i].code) {
            return Some(registry.entries[i].code.clone());
        }
        i = i + 1;
    }
    None
}

/// The language, among `langs`, that the file at `filename` has by its
/// extension, if any.
pub fn lang_for_name(filename: &str, registry: &Registry, langs: &Vec<String>) -> (r: Option<String>)
    ensures
        r is Some <==> lang_of_name(filename@, registry, langs@) is Some,
        r is Some ==> r->0@ == lang_of_name(filename@, registry, langs@)->0,
{
    let path = chars_of(filename);
    let name = match file_name(path.as_slice()) {
        None => return None,
        Some(n) => n,
    };
    match extension(name.as_slice()) {
        None => None,
        Some(e) => lang_for_ext(registry, langs, &string_of(e.as_slice())),
    }
}

/// When exactly one entry of a selected language claims `ext`, the first
/// claim is that entry's.
pub proof fn lemma_single_claim(entries: Seq<LangEntry>, langs: Seq<String>, ext: Seq<char>, i: int)
    requires
        0 <= i < entries.len(),
        selected_claim(entries[i], langs, ext),
        forall|j: int| 0 <= j < entries.len() && j != i ==> !selected_claim(#[trigger] entries[j], langs, ext),
    ensures
        first_claim(entries, langs, ext) == Some(entries[i].code@),
    decreases entries.len(),
{
    if i > 0 {
        let rest = entries.drop_first();
        assert forall|j: int| 0 <= j < rest.len() && j != i - 1 implies !selected_claim(
            #[trigger] rest[j],
            langs,
            ext,
        ) by {
            assert(rest[j] == entries[j + 1]);
        }
        assert(!selected_claim(entries[0], langs, ext));
        lemma_single_claim(rest, langs, ext, i - 1);
    }
}

} // verus!
