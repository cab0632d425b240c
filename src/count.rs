use vstd::prelude::*;
use vstd::utf8::valid_utf8;
use crate::path::{base_name, ext_of};
use crate::registry::{lang_for_name, lang_of_name, lemma_single_claim, selected_claim};
use crate::text::has_str;
use crate::types::{FileData, Registry};

verus! {

/// The number of `\n` bytes in `s`.
pub open spec fn newline_count(s: Seq<u8>) -> nat {
    s.filter(|b: u8| b == 10u8).len()
}

/// An empty content has no lines, and each further byte adds one exactly
/// when it is `\n`: a last line without `\n` adds nothing, nor does `\r`.
pub proof fn lemma_newline_count_step(s: Seq<u8>, b: u8)
    ensures
        newline_count(Seq::<u8>::empty()) == 0,
        newline_count(s.push(b)) == newline_count(s) + if b == 10u8 {
            1nat
        } else {
            0nat
        },
{
    reveal(Seq::filter);
    s.lemma_filter_push(b, |b: u8| b == 10u8);
}

/// `pat` occurs somewhere in `s`.
pub open spec fn has_infix(s: Seq<u8>, pat: Seq<u8>) -> bool {
    exists|i: int| 0 <= i && i + pat.len() <= s.len() && #[trigger] s.subrange(i, i + pat.len()) == pat
}

/// `julia` in ASCII.
pub open spec fn julia_bytes() -> Seq<u8> {
    seq![106u8, 117u8, 108u8, 105u8, 97u8]
}

/// `perl` in ASCII.
pub open spec fn perl_bytes() -> Seq<u8> {
    seq![112u8, 101u8, 114u8, 108u8]
}

/// `python` in ASCII.
pub open spec fn python_bytes() -> Seq<u8> {
    seq![112u8, 121u8, 116u8, 104u8, 111u8, 110u8]
}

/// `ruby` in ASCII.
pub open spec fn ruby_bytes() -> Seq<u8> {
    seq![114u8, 117u8, 98u8, 121u8]
}

/// `tcl` in ASCII.
pub open spec fn tcl_bytes() -> Seq<u8> {
    seq![116u8, 99u8, 108u8]
}

/// The language that a shebang line names: the first of julia, perl,
/// python, ruby and tcl that occurs in it, or nothing.
pub open spec fn line_lang(line: Seq<u8>) -> Seq<char> {
    if has_infix(line, julia_bytes()) {
        "jl"@
    } else if has_infix(line, perl_bytes()) {
        "pl"@
    } else if has_infix(line, python_bytes()) {
        "py"@
    } else if has_infix(line, ruby_bytes()) {
        "rb"@
    } else if has_infix(line, tcl_bytes()) {
        "tcl"@
    } else {
        Seq::empty()
    }
}

/// Position `i` holds the first `\n` of `s`.
pub open spec fn first_newline_at(s: Seq<u8>, i: int) -> bool {
    0 <= i < s.len() && s[i] == 10u8 && forall|j: int| 0 <= j < i ==> s[j] != 10u8
}

/// The first line of a text: what precedes its first `\n`, or the whole
/// text when it holds none.
pub open spec fn first_line(text: Seq<u8>) -> Seq<u8> {
    if exists|i: int| first_newline_at(text, i) {
        text.take(choose|i: int| first_newline_at(text, i))
    } else {
        text
    }
}

/// The language that a text's shebang line names: only a text whose first
/// line starts with `#!` (35, 33) has one.
pub open spec fn shebang_lang(text: Seq<u8>) -> Seq<char> {
    if text.len() >= 2 && text[0] == 35u8 && text[1] == 33u8 {
        line_lang(first_line(text))
    } else {
        Seq::empty()
    }
}

/// The language of the file at `path` with content `content`: by extension,
/// among the languages `langs`, when one of them claims it; otherwise, for
/// a UTF-8 text, by its shebang line; otherwise none.
pub open spec fn classify(path: Seq<char>, content: Seq<u8>, reg: &Registry, langs: Seq<String>) -> Option<Seq<char>> {
    match lang_of_name(path, reg, langs) {
        Some(l) => Some(l),
        None => if valid_utf8(content) && shebang_lang(content).len() > 0 {
            Some(shebang_lang(content))
        } else {
            None
        },
    }
}

/// The number of `\n` bytes in `bytes`.
pub fn count_newlines(bytes: &[u8]) -> (r: usize)
    ensures
        r == newline_count(bytes@),
{
    let mut n: usize = 0;
    let mut i: usize = 0;
    assert(bytes@.take(0) =~= Seq::<u8>::empty());
    proof {
        reveal(Seq::filter);
    }
    while i < bytes.len()
        invariant
            i <= bytes.len(),
            n == newline_count(bytes@.take(i as int)),
            n <= i,
        decreases bytes.len() - i,
    {
        assert(bytes@.take(i + 1) =~= bytes@.take(i as int).push(bytes@[i as int]));
        proof {
            bytes@.take(i as int).lemma_filter_push(bytes@[i as int], |b: u8| b == 10u8);
        }
        if bytes[i] == 10u8 {
            n = n + 1;
        }
        i = i + 1;
    }
    assert(bytes@.take(bytes.len() as int) =~= bytes@);
    n
}

/// Whether `pat` occurs in `s`.
pub fn contains_bytes(s: &[u8], pat: &[u8]) -> (r: bool)
    ensures
        r == has_infix(s@, pat@),
{
    if pat.len() > s.len() {
        return false;
    }
    let mut i: usize = 0;
    while i <= s.len() - pat.len()
        invariant
            pat.len() <= s.len(),
            i <= s.len() - pat.len() + 1,
            forall|k: int| 0 <= k < i ==> #[trigger] s@.subrange(k, k + pat.len()) != pat@,
        decreases s.len() - i,
    {
        let mut j: usize = 0;
        while j < pat.len() && s[i + j] == pat[j]
            invariant
                i + pat.len() <= s.len(),
                j <= pat.len(),
                forall|k: int| 0 <= k < j ==> s@[i + k] == pat@[k],
            decreases pat.len() - j,
        {
            j = j + 1;
        }
        if j == pat.len() {
            assert(s@.subrange(i as int, i + pat.len()) =~= pat@);
            return true;
        }
        assert(s@.subrange(i as int, i + pat.len())[j as int] != pat@[j as int]);
        i = i + 1;
    }
    false
}

/// The language that a shebang line names, or an empty code.
pub fn lang_for_line(line: &[u8]) -> (r: String)
    ensures
        r@ == line_lang(line@),
{
    let julia: Vec<u8> = vec![106u8, 117u8, 108u8, 105u8, 97u8];
    let perl: Vec<u8> = vec![112u8, 101u8, 114u8, 108u8];
    let python: Vec<u8> = vec![112u8, 121u8, 116u8, 104u8, 111u8, 110u8];
    let ruby: Vec<u8> = vec![114u8, 117u8, 98u8, 121u8];
    let tcl: Vec<u8> = vec![116u8, 99u8, 108u8];
    assert(julia@ =~= julia_bytes());
    assert(perl@ =~= perl_bytes());
    assert(python@ =~= python_bytes());
    assert(ruby@ =~= ruby_bytes());
    assert(tcl@ =~= tcl_bytes());
    if contains_bytes(line, julia.as_slice()) {
        "jl".to_owned()
    } else if contains_bytes(line, perl.as_slice()) {
        "pl".to_owned()
    } else if contains_bytes(line, python.as_slice()) {
        "py".to_owned()
    } else if contains_bytes(line, ruby.as_slice()) {
        "rb".to_owned()
    } else if contains_bytes(line, tcl.as_slice()) {
        "tcl".to_owned()
    } else {
        String::new()
    }
}

/// The language that the shebang line of `text` (`#!` is 35, 33) names,
/// or an empty code.
pub fn shebang_lang_of(text: &[u8]) -> (r: String)
    ensures
        r@ == shebang_lang(text@),
{
    if text.len() < 2 || text[0] != 35u8 || text[1] != 33u8 {
        return String::new();
    }
    let mut i: usize = 0;
    while i < text.len() && text[i] != 10u8
        invariant
            i <= text.len(),
            forall|j: int| 0 <= j < i ==> text@[j] != 10u8,
        decreases text.len() - i,
    {
        i = i + 1;
    }
    proof {
        if i < text.len() {
            assert(first_newline_at(text@, i as int));
            let k = choose|k: int| first_newline_at(text@, k);
            if k < i {
                assert(text@[k] != 10u8);
            } else if k > i {
                assert(text@[i as int] != 10u8);
            }
        } else {
            assert forall|k: int| !first_newline_at(text@, k) by {
                if 0 <= k < text@.len() {
                    assert(text@[k] != 10u8);
                }
            }
            assert(text@.take(i as int) =~= text@);
        }
        assert(text@.subrange(0, i as int) == text@.take(i as int));
    }
    lang_for_line(&text[0..i])
}

/// Relies on `std::str::from_utf8`: it accepts exactly the well-formed UTF-8
/// byte strings.
#[verifier::external_body]
fn is_utf8(bytes: &[u8]) -> (r: bool)
    ensures
        r == valid_utf8(bytes@),
{
    std::str::from_utf8(bytes).is_ok()
}

/// Classifies the file at `filename` whose content is `content`, its
/// extension looked up among the selected languages `langs`, and counts its
/// lines: `None` when no language can be told.
pub fn classify_and_count(filename: &str, content: &[u8], registry: &Registry, langs: &Vec<String>) -> (r: Option<FileData>)
    ensures
        r is Some <==> classify(filename@, content@, registry, langs@) is Some,
        r is Some ==> r->0.lang@ == classify(filename@, content@, registry, langs@)->0 && r->0.filename@
            == filename@ && r->0.lines == newline_count(content@),
{
    let lang = match lang_for_name(filename, registry, langs) {
        Some(l) => l,
        None => {
            if !is_utf8(content) {
                return None;
            }
            let l = shebang_lang_of(content);
            if l.as_str().is_empty() {
                return None;
            }
            l
        },
    };
    Some(FileData::new(lang, filename, count_newlines(content)))
}

/// A file whose extension exactly one selected language claims is given
/// that language, whatever its content.
pub proof fn lemma_single_claim_classifies(
    path: Seq<char>,
    content: Seq<u8>,
    reg: &Registry,
    langs: Seq<String>,
    i: int,
)
    requires
        base_name(path) is Some,
        ext_of(base_name(path)->0) is Some,
        0 <= i < reg.entries@.len(),
        has_str(langs, reg.entries@[i].code@),
        reg.claims(i, ext_of(base_name(path)->0)->0),
        forall|j: int|
            0 <= j < reg.entries@.len() && j != i && has_str(langs, reg.entries@[j].code@) ==> !#[trigger] reg.claims(
                j,
                ext_of(base_name(path)->0)->0,
            ),
    ensures
        classify(path, content, reg, langs) == Some(reg.entries@[i].code@),
{
    let e = ext_of(base_name(path)->0)->0;
    assert forall|j: int| 0 <= j < reg.entries@.len() && j != i implies !selected_claim(
        #[trigger] reg.entries@[j],
        langs,
        e,
    ) by {
        if has_str(langs, reg.entries@[j].code@) {
            assert(!reg.claims(j, e));
        }
    }
    lemma_single_claim(reg.entries@, langs, e, i);
}

/// A UTF-8 text that no selected language claims by extension, whose first
/// line starts with `#!` and names python (and neither julia nor perl), is
/// Python, and its lines are counted like any other file's.
pub proof fn lemma_python_shebang(path: Seq<char>, content: Seq<u8>, reg: &Registry, langs: Seq<String>)
    requires
        lang_of_name(path, reg, langs) is None,
        valid_utf8(content),
        content.len() >= 2,
        content[0] == 35u8,
        content[1] == 33u8,
        has_infix(first_line(content), python_bytes()),
        !has_infix(first_line(content), julia_bytes()),
        !has_infix(first_line(content), perl_bytes()),
    ensures
        classify(path, content, reg, langs) == Some("py"@),
{
    reveal_strlit("py");
}

} // verus!
