use vstd::prelude::*;
use num_format::{SystemLocale, ToFormattedString};
use crate::aggregate::{aggregate, get_sorted_totals, total_lines, total_order, totals_of, LangTotal};
use crate::config::Config;
use crate::consts::{FILE_COUNT_WIDTH, LINE_COUNT_WIDTH};
use crate::layout::{pad_left, pad_right, padded_left, padded_right, push_str};
use crate::sort::sorted_by;
use crate::text::{chars_of, string_of};
use crate::types::{FileData, Registry};

verus! {

#[verifier::external_type_specification]
#[verifier::external_body]
pub struct ExSystemLocale(SystemLocale);

/// The ASCII digit of value `d`, below 10.
pub open spec fn digit_char(d: nat) -> char {
    seq!['0', '1', '2', '3', '4', '5', '6', '7', '8', '9'][d as int]
}

/// The decimal digits of `n`, most significant first, without leading
/// zeros (`0` for zero).
pub open spec fn decimal(n: nat) -> Seq<char>
    decreases n,
{
    if n < 10 {
        seq![digit_char(n)]
    } else {
        decimal(n / 10).push(digit_char(n % 10))
    }
}

/// The groups `gs` one after the other.
pub open spec fn flat(gs: Seq<Seq<char>>) -> Seq<char>
    decreases gs.len(),
{
    if gs.len() == 0 {
        Seq::empty()
    } else {
        flat(gs.drop_last()) + gs.last()
    }
}

/// The groups `gs` with `sep` between each two.
pub open spec fn joined(gs: Seq<Seq<char>>, sep: Seq<char>) -> Seq<char>
    decreases gs.len(),
{
    if gs.len() <= 1 {
        flat(gs)
    } else {
        joined(gs.drop_last(), sep) + sep + gs.last()
    }
}

/// `text` writes `n` in decimal: the digits of `n`, in order, cut into one
/// or more non-empty groups with the same separator between each two.
pub open spec fn writes(text: Seq<char>, n: nat) -> bool {
    exists|gs: Seq<Seq<char>>, sep: Seq<char>|
        #![trigger flat(gs), joined(gs, sep)]
        gs.len() > 0 && (forall|i: int| 0 <= i < gs.len() ==> (#[trigger] gs[i]).len() > 0) && flat(gs)
            == decimal(n) && text == joined(gs, sep)
}

/// Relies on num_format's `ToFormattedString::to_formatted_string` for
/// `usize`: the decimal digits of `n`, written in groups with the locale's
/// separator between them, or in one group where the locale has no
/// separator or no grouping.
#[verifier::external_body]
pub(crate) fn formatted(n: usize, locale: &SystemLocale) -> (r: String)
    ensures
        writes(r@, n as nat),
{
    n.to_formatted_string(locale)
}

/// A file count and a line count as a report shows them: the count right
/// aligned, `file` or `files`, the lines right aligned, `lines`.
pub open spec fn numbers(files: nat, files_text: Seq<char>, lines_text: Seq<char>) -> Seq<char> {
    pad_left(files_text, 7) + seq![' ', 'f', 'i', 'l', 'e'] + seq![
        if files == 1 {
            ' '
        } else {
            's'
        },
    ] + seq![' '] + pad_left(lines_text, 11) + seq![' ', 'l', 'i', 'n', 'e', 's']
}

/// One line of the summary: the language's name padded to `lang_width`, a
/// space, then its numbers.
pub open spec fn summary_line_spec(
    name: Seq<char>,
    lang_width: int,
    files: nat,
    files_text: Seq<char>,
    lines_text: Seq<char>,
) -> Seq<char> {
    pad_right(name, lang_width) + seq![' '] + numbers(files, files_text, lines_text)
}

/// The numbers of a report line.
pub fn numbers_of(files: usize, files_text: &str, lines_text: &str) -> (r: Vec<char>)
    ensures
        r@ == numbers(files as nat, files_text@, lines_text@),
{
    let ft = chars_of(files_text);
    let lt = chars_of(lines_text);
    let mut v = padded_left(ft.as_slice(), FILE_COUNT_WIDTH);
    v.push(' ');
    v.push('f');
    v.push('i');
    v.push('l');
    v.push('e');
    v.push(if files == 1 { ' ' } else { 's' });
    v.push(' ');
    let l = padded_left(lt.as_slice(), LINE_COUNT_WIDTH);
    push_str(&mut v, l.as_slice());
    v.push(' ');
    v.push('l');
    v.push('i');
    v.push('n');
    v.push('e');
    v.push('s');
    assert(v@ =~= numbers(files as nat, files_text@, lines_text@));
    v
}

/// One line of the summary.
pub fn summary_line(name: &str, lang_width: usize, files: usize, files_text: &str, lines_text: &str) -> (r: String)
    ensures
        r@ == summary_line_spec(name@, lang_width as int, files as nat, files_text@, lines_text@),
{
    let n = chars_of(name);
    let mut v = padded_right(n.as_slice(), lang_width);
    v.push(' ');
    let nums = numbers_of(files, files_text, lines_text);
    push_str(&mut v, nums.as_slice());
    assert(v@ =~= summary_line_spec(name@, lang_width as int, files as nat, files_text@, lines_text@));
    string_of(v.as_slice())
}

/// The widest display name of the registry, or 10 for an empty one.
pub open spec fn lang_width_of(entries: Seq<crate::types::LangEntry>) -> nat
    decreases entries.len(),
{
    if entries.len() == 0 {
        10
    } else if entries.len() == 1 {
        entries[0].data.name@.len()
    } else {
        let w = lang_width_of(entries.drop_last());
        if w >= entries.last().data.name@.len() {
            w
        } else {
            entries.last().data.name@.len()
        }
    }
}

/// The widest display name of the registry, or 10 for an empty one.
pub fn get_lang_width(registry: &Registry) -> (r: usize)
    ensures
        r == lang_width_of(registry.entries@),
{
    let ghost es = registry.entries@;
    if registry.entries.len() == 0 {
        return 10;
    }
    let mut w: usize = chars_of(registry.entries[0].data.name.as_str()).len();
    let mut i: usize = 1;
    assert(es.take(1).drop_last() =~= Seq::<crate::types::LangEntry>::empty());
    while i < registry.entries.len()
        invariant
            es == registry.entries@,
            1 <= i <= es.len(),
            w == lang_width_of(es.take(i as int)),
        decreases es.len() - i,
    {
        assert(es.take(i + 1).drop_last() =~= es.take(i as int));
        let n = chars_of(registry.entries[i].data.name.as_str()).len();
        if n > w {
            w = n;
        }
        i = i + 1;
    }
    assert(es.take(es.len() as int) =~= es);
    w
}

/// The summary lines of `totals`, in their order, for the languages that the
/// registry knows, with the given texts for their numbers.
pub open spec fn summary_spec(
    ts: Seq<LangTotal>,
    reg: Registry,
    lang_width: int,
    files_texts: Seq<Seq<char>>,
    lines_texts: Seq<Seq<char>>,
) -> Seq<Seq<char>>
    decreases ts.len(),
{
    if ts.len() == 0 {
        Seq::empty()
    } else {
        let k = (ts.len() - 1) as int;
        let prev = summary_spec(ts.drop_last(), reg, lang_width, files_texts, lines_texts);
        if reg.has_code(ts[k].code@) {
            prev.push(
                summary_line_spec(
                    reg.name_of(ts[k].code@),
                    lang_width,
                    ts[k].files as nat,
                    files_texts[k],
                    lines_texts[k],
                ),
            )
        } else {
            prev
        }
    }
}

/// `lines` is the summary of `recs`: `t0` are their totals, `ts` the same
/// totals in report order, and `fts` and `lts` the texts that write each
/// total's file count and line count.
pub open spec fn summary_shows(
    lines: Seq<String>,
    recs: Seq<FileData>,
    bylines: bool,
    reg: Registry,
    t0: Seq<LangTotal>,
    ts: Seq<LangTotal>,
    fts: Seq<Seq<char>>,
    lts: Seq<Seq<char>>,
) -> bool {
    &&& totals_of(t0, recs)
    &&& ts.to_multiset() == t0.to_multiset()
    &&& sorted_by(ts, total_order(reg, bylines))
    &&& fts.len() == ts.len()
    &&& lts.len() == ts.len()
    &&& forall|k: int|
        0 <= k < ts.len() ==> writes(#[trigger] fts[k], ts[k].files as nat) && writes(
            lts[k],
            ts[k].lines as nat,
        )
    &&& crate::text::views(lines) == summary_spec(ts, reg, lang_width_of(reg.entries@) as int, fts, lts)
}

/// The summary report: one line per language with files, in report order,
/// its numbers written by `locale`.
pub fn display_summary(file_data: &Vec<FileData>, config: &Config, registry: &Registry, locale: &SystemLocale) -> (r: Vec<String>)
    requires
        registry.wf(),
        total_lines(file_data@) <= usize::MAX,
    ensures
        exists|t0: Seq<LangTotal>, ts: Seq<LangTotal>, fts: Seq<Seq<char>>, lts: Seq<Seq<char>>|
            summary_shows(r@, file_data@, config.sortbylines, *registry, t0, ts, fts, lts),
{
    let lang_width = get_lang_width(registry);
    let totals = aggregate(file_data);
    let ghost unsorted = totals@;
    let sorted = get_sorted_totals(totals, registry, config.sortbylines);
    let ghost ts = sorted@;
    let ghost mut fts: Seq<Seq<char>> = Seq::empty();
    let ghost mut lts: Seq<Seq<char>> = Seq::empty();
    let mut out: Vec<String> = Vec::new();
    let mut i: usize = 0;
    assert(ts.take(0) =~= Seq::<LangTotal>::empty());
    while i < sorted.len()
        invariant
            ts == sorted@,
            registry.wf(),
            i <= ts.len(),
            fts.len() == i,
            lts.len() == i,
            forall|k: int|
                0 <= k < i ==> writes(#[trigger] fts[k], ts[k].files as nat) && writes(
                    lts[k],
                    ts[k].lines as nat,
                ),
            lang_width == lang_width_of(registry.entries@),
            crate::text::views(out@) == summary_spec(ts.take(i as int), *registry, lang_width as int, fts, lts),
        decreases ts.len() - i,
    {
        let t = &sorted[i];
        let ft = formatted(t.files, locale);
        let lt = formatted(t.lines, locale);
        let ghost old_f = fts;
        let ghost old_l = lts;
        proof {
            fts = fts.push(ft@);
            lts = lts.push(lt@);
            lemma_summary_texts_prefix(ts.take(i as int), *registry, lang_width as int, old_f, old_l, fts, lts);
        }
        assert(ts.take(i + 1).drop_last() =~= ts.take(i as int));
        assert(ts.take(i + 1)[i as int] == ts[i as int]);
        assert(fts[i as int] == ft@ && lts[i as int] == lt@);
        assert forall|k: int|
            0 <= k < i + 1 implies writes(#[trigger] fts[k], ts[k].files as nat) && writes(
            lts[k],
            ts[k].lines as nat,
        ) by {
            if k < i {
                assert(fts[k] == old_f[k] && lts[k] == old_l[k]);
            }
        }
        match registry.find(&t.code) {
            Some(j) => {
                let line = summary_line(
                    registry.entries[j].data.name.as_str(),
                    lang_width,
                    t.files,
                    ft.as_str(),
                    lt.as_str(),
                );
                let ghost before = out@;
                out.push(line);
                assert(crate::text::views(out@) =~= crate::text::views(before).push(line@));
            },
            None => {},
        }
        i = i + 1;
    }
    assert(ts.take(ts.len() as int) =~= ts);
    assert(totals_of(unsorted, file_data@));
    assert(forall|k: int|
        0 <= k < ts.len() ==> writes(#[trigger] fts[k], ts[k].files as nat) && writes(
            lts[k],
            ts[k].lines as nat,
        ));
    assert(crate::text::views(out@) == summary_spec(ts, *registry, lang_width as int, fts, lts));
    assert(summary_shows(out@, file_data@, config.sortbylines, *registry, unsorted, ts, fts, lts));
    out
}

/// The summary lines of a prefix do not depend on texts beyond it.
proof fn lemma_summary_texts_prefix(
    ts: Seq<LangTotal>,
    reg: Registry,
    w: int,
    f1: Seq<Seq<char>>,
    l1: Seq<Seq<char>>,
    f2: Seq<Seq<char>>,
    l2: Seq<Seq<char>>,
)
    requires
        f1.len() >= ts.len(),
        l1.len() >= ts.len(),
        f2.len() >= ts.len(),
        l2.len() >= ts.len(),
        forall|i: int| 0 <= i < ts.len() ==> f1[i] == f2[i] && l1[i] == l2[i],
    ensures
        summary_spec(ts, reg, w, f1, l1) == summary_spec(ts, reg, w, f2, l2),
    decreases ts.len(),
{
    if ts.len() > 0 {
        lemma_summary_texts_prefix(ts.drop_last(), reg, w, f1, l1, f2, l2);
    }
}

} // verus!
