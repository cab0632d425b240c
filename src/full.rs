use vstd::prelude::*;
use num_format::SystemLocale;
use crate::aggregate::{file_order, lemma_prefix_total, lemma_total_permutation, sort_file_data, total_lines};
use crate::config::Config;
use crate::consts::LINE_COUNT_WIDTH;
use crate::display::{formatted, numbers, numbers_of, writes};
use crate::layout::{centered, centered_in, elide, elided, fill, pad_left, pad_right, padded_left, padded_right, push_fill, push_str};
use crate::sort::sorted_by;
use crate::text::{chars_of, string_of, views};
use crate::types::{FileData, Registry};

verus! {

broadcast use vstd::seq_lib::group_to_multiset_ensures;

/// The records whose language the registry knows, in order.
pub open spec fn known_files(s: Seq<FileData>, reg: Registry) -> Seq<FileData>
    decreases s.len(),
{
    if s.len() == 0 {
        Seq::empty()
    } else if reg.has_code(s.last().lang@) {
        known_files(s.drop_last(), reg).push(s.last())
    } else {
        known_files(s.drop_last(), reg)
    }
}

/// The longest file name among `fs`, in characters.
pub open spec fn max_name_len(fs: Seq<FileData>) -> nat
    decreases fs.len(),
{
    if fs.len() == 0 {
        0
    } else {
        let m = max_name_len(fs.drop_last());
        if m >= fs.last().filename@.len() {
            m
        } else {
            fs.last().filename@.len()
        }
    }
}

/// The width of the file name column: the longest name, but no more than
/// `maxwidth`; `maxwidth` when there are no files.
pub open spec fn name_width(fs: Seq<FileData>, maxwidth: nat) -> nat {
    if fs.len() == 0 || max_name_len(fs) > maxwidth {
        maxwidth
    } else {
        max_name_len(fs)
    }
}

/// The heavy rule character.
pub open spec fn heavy() -> char {
    '\u{2501}'
}

/// The light rule character.
pub open spec fn light() -> char {
    '\u{2500}'
}

/// The line that opens a language's group: its name, with a space on each
/// side, centered in heavy rule.
pub open spec fn banner_line(reg: Registry, code: Seq<char>, rw: int) -> Seq<char> {
    centered(seq![' '] + reg.name_of(code) + seq![' '], rw, heavy())
}

/// A file's line: its name, elided to fit and padded to `fw`, then its line
/// count right-aligned.
pub open spec fn file_line(f: FileData, fw: int, text: Seq<char>) -> Seq<char> {
    pad_right(elided(f.filename@, fw / 3 - 1, fw), fw) + seq![' '] + pad_left(text, 11)
}

/// The room left for the name on a subtotal line.
pub open spec fn subtotal_width(rw: int, nums: Seq<char>) -> int {
    if rw > nums.len() {
        if rw - nums.len() > 10000 {
            10000
        } else {
            rw - nums.len()
        }
    } else {
        0
    }
}

/// The lines that close a language's group: a light rule, then the name and
/// the group's numbers.
pub open spec fn subtotal_lines(
    reg: Registry,
    code: Seq<char>,
    files: nat,
    files_text: Seq<char>,
    lines_text: Seq<char>,
    rw: int,
) -> Seq<Seq<char>> {
    let nums = numbers(files, files_text, lines_text);
    seq![fill(light(), rw), pad_right(reg.name_of(code), subtotal_width(rw, nums)) + nums]
}

/// The number of files of the group that the `k`-th file ends.
pub open spec fn run_files(fs: Seq<FileData>, k: int) -> nat
    decreases k,
{
    if k <= 0 {
        0
    } else if k == 1 {
        1
    } else if fs[k - 1].lang@ == fs[k - 2].lang@ {
        run_files(fs, k - 1) + 1
    } else {
        1
    }
}

/// The lines of the group that the `k`-th file ends.
pub open spec fn run_lines(fs: Seq<FileData>, k: int) -> nat
    decreases k,
{
    if k <= 0 {
        0
    } else if k == 1 {
        fs[0].lines as nat
    } else if fs[k - 1].lang@ == fs[k - 2].lang@ {
        run_lines(fs, k - 1) + fs[k - 1].lines as nat
    } else {
        fs[k - 1].lines as nat
    }
}

/// The lines of the full report up to and including that of the `k`-th
/// file: `ft[i]` is the text of file `i`'s line count, `gf[i]` and `gl[i]`
/// those of the numbers of the group that file `i` ends.
pub open spec fn rows_upto(
    fs: Seq<FileData>,
    k: int,
    reg: Registry,
    fw: int,
    ft: Seq<Seq<char>>,
    gf: Seq<Seq<char>>,
    gl: Seq<Seq<char>>,
) -> Seq<Seq<char>>
    decreases k,
{
    if k <= 0 {
        Seq::empty()
    } else {
        let prev = rows_upto(fs, k - 1, reg, fw, ft, gf, gl);
        let f = fs[k - 1];
        let opened = if k == 1 {
            prev.push(banner_line(reg, f.lang@, fw + 12))
        } else if fs[k - 2].lang@ != f.lang@ {
            (prev + subtotal_lines(
                reg,
                fs[k - 2].lang@,
                run_files(fs, k - 1),
                gf[k - 2],
                gl[k - 2],
                fw + 12,
            )).push(banner_line(reg, f.lang@, fw + 12))
        } else {
            prev
        };
        opened.push(file_line(f, fw, ft[k - 1]))
    }
}

/// The full report of the sorted records `fs`.
pub open spec fn full_spec(
    fs: Seq<FileData>,
    reg: Registry,
    fw: int,
    ft: Seq<Seq<char>>,
    gf: Seq<Seq<char>>,
    gl: Seq<Seq<char>>,
) -> Seq<Seq<char>> {
    let n = fs.len() as int;
    if n == 0 {
        Seq::empty()
    } else {
        (rows_upto(fs, n, reg, fw, ft, gf, gl) + subtotal_lines(
            reg,
            fs[n - 1].lang@,
            run_files(fs, n),
            gf[n - 1],
            gl[n - 1],
            fw + 12,
        )).push(fill(heavy(), fw + 12))
    }
}

/// The `k`-th file is the last of its language's group.
pub open spec fn ends_group(fs: Seq<FileData>, k: int) -> bool {
    k + 1 >= fs.len() || fs[k + 1].lang@ != fs[k].lang@
}

/// `lines` is the full report of `recs`: `fs` are the records of known
/// language in report order, `ft[k]` writes the line count of file `k`,
/// and where file `k` ends a group, `gf[k]` and `gl[k]` write the group's
/// number of files and its sum of lines.
pub open spec fn full_shows(
    lines: Seq<String>,
    recs: Seq<FileData>,
    reg: Registry,
    bylines: bool,
    maxwidth: nat,
    fs: Seq<FileData>,
    ft: Seq<Seq<char>>,
    gf: Seq<Seq<char>>,
    gl: Seq<Seq<char>>,
) -> bool {
    &&& fs.to_multiset() == known_files(recs, reg).to_multiset()
    &&& sorted_by(fs, file_order(bylines))
    &&& ft.len() == fs.len() && gf.len() == fs.len() && gl.len() == fs.len()
    &&& forall|k: int| 0 <= k < fs.len() ==> writes(#[trigger] ft[k], fs[k].lines as nat)
    &&& forall|k: int|
        0 <= k < fs.len() && #[trigger] ends_group(fs, k) ==> writes(gf[k], run_files(fs, k + 1))
            && writes(gl[k], run_lines(fs, k + 1))
    &&& views(lines) == full_spec(fs, reg, name_width(fs, maxwidth) as int, ft, gf, gl)
}

proof fn lemma_rows_frame(
    fs: Seq<FileData>,
    k: int,
    reg: Registry,
    fw: int,
    ft1: Seq<Seq<char>>,
    gf1: Seq<Seq<char>>,
    gl1: Seq<Seq<char>>,
    ft2: Seq<Seq<char>>,
    gf2: Seq<Seq<char>>,
    gl2: Seq<Seq<char>>,
)
    requires
        forall|j: int| 0 <= j < k ==> ft1[j] == ft2[j],
        forall|j: int| 0 <= j < k - 1 ==> gf1[j] == gf2[j] && gl1[j] == gl2[j],
    ensures
        rows_upto(fs, k, reg, fw, ft1, gf1, gl1) == rows_upto(fs, k, reg, fw, ft2, gf2, gl2),
    decreases k,
{
    if k > 0 {
        lemma_rows_frame(fs, k - 1, reg, fw, ft1, gf1, gl1, ft2, gf2, gl2);
    }
}

proof fn lemma_run_lines_bound(fs: Seq<FileData>, k: int)
    requires
        0 <= k <= fs.len(),
    ensures
        run_lines(fs, k) <= total_lines(fs.take(k)),
        run_files(fs, k) <= k,
    decreases k,
{
    if k > 0 {
        lemma_run_lines_bound(fs, k - 1);
        assert(fs.take(k).drop_last() =~= fs.take(k - 1));
        if k == 1 {
            assert(fs.take(0) =~= Seq::<FileData>::empty());
        }
    }
}

proof fn lemma_max_name_len(fs: Seq<FileData>)
    ensures
        forall|j: int| 0 <= j < fs.len() ==> (#[trigger] fs[j]).filename@.len() <= max_name_len(fs),
    decreases fs.len(),
{
    if fs.len() > 0 {
        lemma_max_name_len(fs.drop_last());
        assert forall|j: int| 0 <= j < fs.len() implies (#[trigger] fs[j]).filename@.len() <= max_name_len(fs) by {
            if j < fs.len() - 1 {
                assert(fs[j] == fs.drop_last()[j]);
            }
        }
    }
}

fn copy_record(f: &FileData) -> (r: FileData)
    ensures
        r == *f,
{
    FileData { lang: f.lang.clone(), filename: f.filename.clone(), lines: f.lines }
}

/// The records whose language the registry knows.
fn keep_known(file_data: &Vec<FileData>, registry: &Registry) -> (r: Vec<FileData>)
    requires
        registry.wf(),
    ensures
        r@ == known_files(file_data@, *registry),
        total_lines(r@) <= total_lines(file_data@),
{
    let ghost s = file_data@;
    let mut out: Vec<FileData> = Vec::new();
    let mut i: usize = 0;
    assert(s.take(0) =~= Seq::<FileData>::empty());
    while i < file_data.len()
        invariant
            s == file_data@,
            registry.wf(),
            i <= s.len(),
            out@ == known_files(s.take(i as int), *registry),
            total_lines(out@) <= total_lines(s.take(i as int)),
        decreases s.len() - i,
    {
        assert(s.take(i + 1).drop_last() =~= s.take(i as int));
        let f = &file_data[i];
        if registry.find(&f.lang).is_some() {
            out.push(copy_record(f));
            assert(out@.drop_last() =~= known_files(s.take(i as int), *registry));
        }
        i = i + 1;
    }
    assert(s.take(s.len() as int) =~= s);
    out
}

proof fn lemma_known_have_codes(s: Seq<FileData>, reg: Registry)
    ensures
        forall|j: int|
            0 <= j < known_files(s, reg).len() ==> reg.has_code((#[trigger] known_files(s, reg)[j]).lang@),
    decreases s.len(),
{
    if s.len() > 0 {
        lemma_known_have_codes(s.drop_last(), reg);
        let k = known_files(s.drop_last(), reg);
        if reg.has_code(s.last().lang@) {
            assert forall|j: int| 0 <= j < k.push(s.last()).len() implies reg.has_code(
                (#[trigger] k.push(s.last())[j]).lang@,
            ) by {
                if j < k.len() {
                    assert(k.push(s.last())[j] == k[j]);
                }
            }
        }
    }
}

/// Appends the lines that close the group of language `code` to `out`, and
/// gives the texts its numbers were written with.
fn subtotal(registry: &Registry, code: &String, files: usize, lines: usize, rw: usize, locale: &SystemLocale, out: &mut Vec<String>) -> (texts: (Ghost<Seq<char>>, Ghost<Seq<char>>))
    requires
        registry.wf(),
        registry.has_code(code@),
    ensures
        views(final(out)@) == views(old(out)@) + subtotal_lines(
            *registry,
            code@,
            files as nat,
            texts.0@,
            texts.1@,
            rw as int,
        ),
        writes(texts.0@, files as nat),
        writes(texts.1@, lines as nat),
{
    let ft = formatted(files, locale);
    let lt = formatted(lines, locale);
    let mut rule: Vec<char> = Vec::new();
    push_fill(&mut rule, '\u{2500}', rw);
    let nums = numbers_of(files, ft.as_str(), lt.as_str());
    let width: usize = if rw > nums.len() {
        if rw - nums.len() > 10000 {
            10000
        } else {
            rw - nums.len()
        }
    } else {
        0
    };
    let i = registry.find(code).unwrap();
    let name = chars_of(registry.entries[i].data.name.as_str());
    let mut line = padded_right(name.as_slice(), width);
    push_str(&mut line, nums.as_slice());
    let ghost before = out@;
    out.push(string_of(rule.as_slice()));
    out.push(string_of(line.as_slice()));
    assert(views(out@) =~= views(before) + subtotal_lines(
        *registry,
        code@,
        files as nat,
        ft@,
        lt@,
        rw as int,
    ));
    (Ghost(ft@), Ghost(lt@))
}

/// The width of the file name column (see `name_width`).
pub fn get_filename_width(file_data: &Vec<FileData>, maxwidth: usize) -> (r: usize)
    ensures
        r == name_width(file_data@, maxwidth as nat),
{
    let ghost fs = file_data@;
    let n = file_data.len();
    let mut longest: usize = 0;
    let mut i: usize = 0;
    while i < n
        invariant
            fs == file_data@,
            n == fs.len(),
            i <= n,
            longest == max_name_len(fs.take(i as int)),
        decreases n - i,
    {
        assert(fs.take(i + 1).drop_last() =~= fs.take(i as int));
        let l = chars_of(file_data[i].filename.as_str()).len();
        if l > longest {
            longest = l;
        }
        i = i + 1;
    }
    assert(fs.take(n as int) =~= fs);
    if n == 0 || longest > maxwidth {
        maxwidth
    } else {
        longest
    }
}

/// The full report: the files grouped by language in report order, each
/// group opened by a banner and closed by its subtotal, and a closing heavy
/// rule; numbers written by `locale`.
pub fn display_full(file_data: &Vec<FileData>, config: &Config, registry: &Registry, locale: &SystemLocale) -> (r: Vec<String>)
    requires
        registry.wf(),
        total_lines(file_data@) <= usize::MAX,
        7 <= config.maxwidth <= 32753,
    ensures
        exists|fs: Seq<FileData>, ft: Seq<Seq<char>>, gf: Seq<Seq<char>>, gl: Seq<Seq<char>>|
            full_shows(r@, file_data@, *registry, config.sortbylines, config.maxwidth as nat, fs, ft, gf, gl),
{
    let known = keep_known(file_data, registry);
    let ghost kn = known@;
    let fsv = sort_file_data(known, config.sortbylines);
    let ghost fs = fsv@;
    let n = fsv.len();
    proof {
        lemma_total_permutation(kn, fs);
        lemma_known_have_codes(file_data@, *registry);
        assert forall|j: int| 0 <= j < fs.len() implies registry.has_code((#[trigger] fs[j]).lang@) by {
            assert(fs.to_multiset().count(fs[j]) > 0);
            assert(kn.contains(fs[j]));
        }
        lemma_max_name_len(fs);
    }
    let fw = get_filename_width(&fsv, config.maxwidth);
    let rw: usize = fw + 1 + LINE_COUNT_WIDTH;
    let ghost mut ft: Seq<Seq<char>> = Seq::empty();
    let ghost mut gf: Seq<Seq<char>> = Seq::empty();
    let ghost mut gl: Seq<Seq<char>> = Seq::empty();
    let mut out: Vec<String> = Vec::new();
    let mut run_f: usize = 0;
    let mut run_l: usize = 0;
    let mut k: usize = 0;
    while k < n
        invariant
            fs == fsv@,
            n == fs.len(),
            registry.wf(),
            k <= n,
            7 <= config.maxwidth <= 32753,
            fw == name_width(fs, config.maxwidth as nat),
            rw == fw + 12,
            fw <= config.maxwidth,
            forall|j: int| 0 <= j < n ==> (#[trigger] fs[j]).filename@.len() <= max_name_len(fs),
            forall|j: int| 0 <= j < n ==> registry.has_code((#[trigger] fs[j]).lang@),
            total_lines(fs) <= usize::MAX,
            ft.len() == k,
            gf.len() == k,
            gl.len() == k,
            run_f == run_files(fs, k as int),
            run_l == run_lines(fs, k as int),
            views(out@) == rows_upto(fs, k as int, *registry, fw as int, ft, gf, gl),
            forall|j: int| 0 <= j < k ==> writes(#[trigger] ft[j], fs[j].lines as nat),
            forall|j: int|
                0 <= j && j + 1 < k && #[trigger] ends_group(fs, j) ==> writes(gf[j], run_files(fs, j + 1))
                    && writes(gl[j], run_lines(fs, j + 1)),
        decreases n - k,
    {
        let f = &fsv[k];
        let new_group = k == 0 || fsv[k - 1].lang != f.lang;
        proof {
            lemma_run_lines_bound(fs, k as int);
            lemma_run_lines_bound(fs, k + 1);
            lemma_prefix_total(fs, k + 1);
            lemma_prefix_total(fs, k as int);
        }
        let ghost ft0 = ft;
        let ghost gf0 = gf;
        let ghost gl0 = gl;
        if new_group {
            if k > 0 {
                let (Ghost(a), Ghost(b)) = subtotal(registry, &fsv[k - 1].lang, run_f, run_l, rw, locale, &mut out);
                proof {
                    gf = gf.update(k - 1, a);
                    gl = gl.update(k - 1, b);
                }
            }
            let i = registry.find(&f.lang).unwrap();
            let name = chars_of(registry.entries[i].data.name.as_str());
            let mut title: Vec<char> = Vec::new();
            title.push(' ');
            push_str(&mut title, name.as_slice());
            title.push(' ');
            let banner = centered_in(title.as_slice(), rw, '\u{2501}');
            assert(title@ =~= seq![' '] + registry.name_of(f.lang@) + seq![' ']);
            out.push(string_of(banner.as_slice()));
            run_f = 1;
            run_l = f.lines;
        } else {
            run_f = run_f + 1;
            run_l = run_l + f.lines;
        }
        let lt = formatted(f.lines, locale);
        let name_chars = chars_of(f.filename.as_str());
        let shown = if name_chars.len() <= fw {
            name_chars
        } else {
            assert(fw == config.maxwidth);
            chars_of(elide(f.filename.as_str(), fw / 3 - 1, fw).as_str())
        };
        assert(shown@ == elided(f.filename@, fw / 3 - 1, fw as int));
        let mut line = padded_right(shown.as_slice(), fw);
        line.push(' ');
        let lcol = padded_left(chars_of(lt.as_str()).as_slice(), LINE_COUNT_WIDTH);
        push_str(&mut line, lcol.as_slice());
        let ghost before = out@;
        out.push(string_of(line.as_slice()));
        proof {
            let gf1 = gf;
            let gl1 = gl;
            ft = ft.push(lt@);
            gf = gf.push(Seq::empty());
            gl = gl.push(Seq::empty());
            lemma_rows_frame(fs, k as int, *registry, fw as int, ft0, gf0, gl0, ft, gf, gl);
            assert forall|j: int| 0 <= j < k + 1 implies writes(#[trigger] ft[j], fs[j].lines as nat) by {
                if j < k {
                    assert(ft[j] == ft0[j]);
                }
            }
            assert forall|j: int|
                0 <= j && j + 1 < k + 1 && #[trigger] ends_group(fs, j) implies writes(
                gf[j],
                run_files(fs, j + 1),
            ) && writes(gl[j], run_lines(fs, j + 1)) by {
                assert(gf[j] == gf1[j] && gl[j] == gl1[j]);
                if j + 1 < k {
                    assert(gf1[j] == gf0[j] && gl1[j] == gl0[j]);
                }
            }
            assert(line@ =~= file_line(fs[k as int], fw as int, lt@));
            assert(views(out@) =~= views(before).push(line@));
        }
        k = k + 1;
    }
    if n > 0 {
        let ghost gf0 = gf;
        let ghost gl0 = gl;
        let (Ghost(a), Ghost(b)) = subtotal(registry, &fsv[n - 1].lang, run_f, run_l, rw, locale, &mut out);
        proof {
            gf = gf.update(n - 1, a);
            gl = gl.update(n - 1, b);
            lemma_rows_frame(fs, n as int, *registry, fw as int, ft, gf0, gl0, ft, gf, gl);
            assert forall|j: int|
                0 <= j < n && #[trigger] ends_group(fs, j) implies writes(gf[j], run_files(fs, j + 1))
                && writes(gl[j], run_lines(fs, j + 1)) by {
                if j + 1 < n {
                    assert(gf[j] == gf0[j] && gl[j] == gl0[j]);
                }
            }
        }
        let mut rule: Vec<char> = Vec::new();
        push_fill(&mut rule, '\u{2501}', rw);
        let ghost before = out@;
        out.push(string_of(rule.as_slice()));
        assert(views(out@) =~= views(before).push(rule@));
    }
    proof {
        assert(fs.to_multiset() == known_files(file_data@, *registry).to_multiset());
        assert(views(out@) == full_spec(fs, *registry, fw as int, ft, gf, gl));
        assert(full_shows(out@, file_data@, *registry, config.sortbylines, config.maxwidth as nat, fs, ft, gf, gl));
    }
    out
}

} // verus!
