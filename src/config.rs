use vstd::prelude::*;
use crate::consts::{initialize, LINE_COUNT_WIDTH};
use crate::text::{chars_of, contains_str, has_str, lemma_has_str_push, views};
use crate::types::Registry;

verus! {

/// What the command line asked for.
pub struct Cli {
    /// Languages to count; all known ones when absent.
    pub language: Option<Vec<String>>,
    /// Languages not to count.
    pub skiplanguage: Option<Vec<String>>,
    /// Files and folders to leave out, besides the usual ones.
    pub exclude: Option<Vec<String>>,
    /// Files to count whatever their extension.
    pub included: Option<Vec<String>>,
    /// The width of a report line.
    pub maxwidth: Option<usize>,
    pub sortbylines: bool,
    pub summary: bool,
    /// Files and folders to count; the current folder when absent.
    pub file: Option<Vec<String>>,
}

/// The settings of one run.
pub struct Config {
    /// Codes of the languages to count.
    pub langs: Vec<String>,
    /// Names of files and folders to leave out.
    pub exclude: Vec<String>,
    /// Names of files to count whatever their extension.
    pub included: Vec<String>,
    /// The width left for a file's name in the full report.
    pub maxwidth: usize,
    pub sortbylines: bool,
    pub summary: bool,
    /// The files and folders to count.
    pub files: Vec<String>,
}

/// Why a configuration cannot be used.
#[derive(Debug, PartialEq, Eq, Structural)]
pub enum ConfigError {
    /// No language is left to count.
    NoLanguages,
}

/// Why a line width was refused.
#[derive(Debug, PartialEq, Eq, Structural)]
pub enum WidthError {
    /// Not a whole number that fits a `usize`.
    Invalid,
    /// A number outside 20 to 32766.
    OutOfRange,
}

/// The smallest line width accepted.
pub const MIN_WIDTH: usize = 20;

/// One more than the largest line width accepted.
pub const MAX_WIDTH_END: usize = 32767;

/// The value of a string of decimal digits.
pub open spec fn digits_value(d: Seq<char>) -> nat
    decreases d.len(),
{
    if d.len() == 0 {
        0
    } else {
        digits_value(d.drop_last()) * 10 + ((d.last() as int) - 48) as nat
    }
}

/// `d` is one or more ASCII digits.
pub open spec fn all_digits(d: Seq<char>) -> bool {
    d.len() > 0 && forall|i: int| 0 <= i < d.len() ==> '0' <= #[trigger] d[i] <= '9'
}

/// The number that `s` writes as an unsigned decimal (an optional `+`, then
/// digits), if it does.
pub open spec fn unsigned_text(s: Seq<char>) -> Option<nat> {
    let d = if s.len() > 0 && s[0] == '+' {
        s.drop_first()
    } else {
        s
    };
    if all_digits(d) {
        Some(digits_value(d))
    } else {
        None
    }
}

/// Reads an unsigned decimal number that fits a `usize`.
pub fn parse_usize(s: &str) -> (r: Option<usize>)
    ensures
        r is Some <==> (unsigned_text(s@) is Some && unsigned_text(s@)->0 <= usize::MAX),
        r is Some ==> r->0 == unsigned_text(s@)->0,
{
    let c = chars_of(s);
    let start: usize = if c.len() > 0 && c[0] == '+' { 1 } else { 0 };
    let ghost d = if s@.len() > 0 && s@[0] == '+' { s@.drop_first() } else { s@ };
    assert(d =~= c@.skip(start as int));
    if start == c.len() {
        return None;
    }
    let mut v: usize = 0;
    let mut i: usize = start;
    let mut fits = true;
    let ghost mut exact: nat = 0;
    assert(c@.subrange(start as int, start as int) =~= Seq::<char>::empty());
    while i < c.len()
        invariant
            start <= i <= c@.len(),
            c@ == s@,
            d == (if s@.len() > 0 && s@[0] == '+' { s@.drop_first() } else { s@ }),
            d == c@.skip(start as int),
            exact == digits_value(c@.subrange(start as int, i as int)),
            fits ==> v == exact,
            !fits ==> exact > usize::MAX,
            forall|j: int| start <= j < i ==> '0' <= #[trigger] c@[j] <= '9',
        decreases c@.len() - i,
    {
        let ch = c[i];
        if !('0' <= ch && ch <= '9') {
            assert(d[i - start] == ch);
            assert(!('0' <= d[i - start] <= '9'));
            assert(!all_digits(d));
            assert(unsigned_text(s@) is None);
            return None;
        }
        let digit = (ch as u32 - 48) as usize;
        assert(c@.subrange(start as int, i + 1).drop_last() =~= c@.subrange(start as int, i as int));
        let ghost prev = exact;
        proof {
            exact = (exact * 10 + digit) as nat;
        }
        if fits {
            if v > (usize::MAX - digit) / 10 {
                fits = false;
                assert(prev * 10 + digit > usize::MAX) by (nonlinear_arith)
                    requires
                        v > (usize::MAX - digit) / 10,
                        v == prev,
                        digit <= 9,
                ;
            } else {
                assert(v * 10 + digit <= usize::MAX) by (nonlinear_arith)
                    requires
                        v <= (usize::MAX - digit) / 10,
                        digit <= 9,
                ;
                v = v * 10 + digit;
            }
        } else {
            assert(exact > usize::MAX) by (nonlinear_arith)
                requires
                    prev > usize::MAX,
                    exact == prev * 10 + digit,
            ;
        }
        i = i + 1;
    }
    assert(c@.subrange(start as int, c@.len() as int) =~= d);
    if fits {
        Some(v)
    } else {
        None
    }
}

/// Reads a line width: a whole number from 20 to 32766.
pub fn maxsize_in_range(s: &str) -> (r: Result<usize, WidthError>)
    ensures
        match unsigned_text(s@) {
            None => r == Err::<usize, WidthError>(WidthError::Invalid),
            Some(v) => if v > usize::MAX {
                r == Err::<usize, WidthError>(WidthError::Invalid)
            } else if MIN_WIDTH <= v < MAX_WIDTH_END {
                r == Ok::<usize, WidthError>(v as usize)
            } else {
                r == Err::<usize, WidthError>(WidthError::OutOfRange)
            },
        },
{
    match parse_usize(s) {
        None => Err(WidthError::Invalid),
        Some(v) => if MIN_WIDTH <= v && v < MAX_WIDTH_END {
            Ok(v)
        } else {
            Err(WidthError::OutOfRange)
        },
    }
}

/// The languages chosen for a run, and the requested codes that no
/// language has.
pub struct LangChoice {
    pub langs: Vec<String>,
    pub ignored: Vec<String>,
}

/// No two strings of `v` are equal.
pub open spec fn no_dups(v: Seq<String>) -> bool {
    forall|i: int, j: int|
        #![trigger v[i], v[j]]
        0 <= i < v.len() && 0 <= j < v.len() && i != j ==> v[i]@ != v[j]@
}

/// The code `c` was asked for: named, or, when none is named, known.
pub open spec fn asked(language: Option<Vec<String>>, reg: &Registry, c: Seq<char>) -> bool {
    match language {
        Some(v) => has_str(v@, c),
        None => reg.has_code(c),
    }
}

/// The code `c` is to be skipped.
pub open spec fn skipped(skiplanguage: Option<Vec<String>>, c: Seq<char>) -> bool {
    match skiplanguage {
        Some(v) => has_str(v@, c),
        None => false,
    }
}

/// Adds the candidate `c` to the chosen codes, or to the ignored ones when
/// the registry does not know it; a skipped or repeated code is dropped.
fn add_candidate(
    c: &String,
    skiplanguage: &Option<Vec<String>>,
    registry: &Registry,
    langs: &mut Vec<String>,
    ignored: &mut Vec<String>,
)
    requires
        registry.wf(),
        no_dups(old(langs)@),
        no_dups(old(ignored)@),
    ensures
        no_dups(final(langs)@),
        no_dups(final(ignored)@),
        forall|x: Seq<char>|
            #[trigger] has_str(final(langs)@, x) <==> has_str(old(langs)@, x) || (x == c@ && !skipped(
                *skiplanguage,
                x,
            ) && registry.has_code(x)),
        forall|x: Seq<char>|
            #[trigger] has_str(final(ignored)@, x) <==> has_str(old(ignored)@, x) || (x == c@
                && !skipped(*skiplanguage, x) && !registry.has_code(x)),
{
    let skip = match skiplanguage {
        Some(v) => contains_str(v, c),
        None => false,
    };
    if skip {
        return;
    }
    if registry.find(c).is_some() {
        if !contains_str(langs, c) {
            let ghost before = langs@;
            langs.push(c.clone());
            proof {
                lemma_has_str_push(before, c@);
            }
        }
    } else if !contains_str(ignored, c) {
        let ghost before = ignored@;
        ignored.push(c.clone());
        proof {
            lemma_has_str_push(before, c@);
        }
    }
}

/// Chooses the languages to count: those asked for (all known ones when
/// none is named), less those skipped; asked-for codes that no language has
/// are set aside. Fails when no language is left.
pub fn get_langs(
    language: Option<Vec<String>>,
    skiplanguage: Option<Vec<String>>,
    registry: &Registry,
) -> (r: Result<LangChoice, ConfigError>)
    requires
        registry.wf(),
    ensures
        r is Ok <==> exists|c: Seq<char>|
            asked(language, registry, c) && !skipped(skiplanguage, c) && registry.has_code(c),
        r is Err ==> r == Err::<LangChoice, ConfigError>(ConfigError::NoLanguages),
        r is Ok ==> {
            &&& no_dups(r->Ok_0.langs@)
            &&& no_dups(r->Ok_0.ignored@)
            &&& forall|c: Seq<char>|
                #[trigger] has_str(r->Ok_0.langs@, c) <==> (asked(language, registry, c) && !skipped(
                    skiplanguage,
                    c,
                ) && registry.has_code(c))
            &&& forall|c: Seq<char>|
                #[trigger] has_str(r->Ok_0.ignored@, c) <==> (asked(language, registry, c) && !skipped(
                    skiplanguage,
                    c,
                ) && !registry.has_code(c))
        },
{
    let mut langs: Vec<String> = Vec::new();
    let mut ignored: Vec<String> = Vec::new();
    match &language {
        Some(v) => {
            let mut i: usize = 0;
            while i < v.len()
                invariant
                    registry.wf(),
                    i <= v@.len(),
                    no_dups(langs@),
                    no_dups(ignored@),
                    forall|x: Seq<char>|
                        #[trigger] has_str(langs@, x) <==> (has_str(v@.take(i as int), x) && !skipped(
                            skiplanguage,
                            x,
                        ) && registry.has_code(x)),
                    forall|x: Seq<char>|
                        #[trigger] has_str(ignored@, x) <==> (has_str(v@.take(i as int), x) && !skipped(
                            skiplanguage,
                            x,
                        ) && !registry.has_code(x)),
                decreases v@.len() - i,
            {
                add_candidate(&v[i], &skiplanguage, registry, &mut langs, &mut ignored);
                assert(v@.take(i + 1) =~= v@.take(i as int).push(v@[i as int]));
                proof {
                    lemma_has_str_push(v@.take(i as int), v@[i as int]@);
                }
                i = i + 1;
            }
            assert(v@.take(v@.len() as int) =~= v@);
        },
        None => {
            let mut i: usize = 0;
            while i < registry.entries.len()
                invariant
                    registry.wf(),
                    language is None,
                    i <= registry.entries@.len(),
                    no_dups(langs@),
                    no_dups(ignored@),
                    ignored@.len() == 0,
                    forall|x: Seq<char>|
                        #[trigger] has_str(langs@, x) <==> ((exists|k: int|
                            0 <= k < i && #[trigger] registry.entries@[k].code@ == x) && !skipped(
                            skiplanguage,
                            x,
                        )),
                decreases registry.entries@.len() - i,
            {
                add_candidate(&registry.entries[i].code, &skiplanguage, registry, &mut langs, &mut ignored);
                assert(registry.has_code(registry.entries@[i as int].code@));
                assert forall|x: Seq<char>| !has_str(ignored@, x) by {}
                assert(ignored@.len() == 0) by {
                    if ignored@.len() > 0 {
                        assert(has_str(ignored@, ignored@[0]@));
                    }
                }
                i = i + 1;
            }
            assert forall|x: Seq<char>| !has_str(ignored@, x) by {}
        },
    }
    if langs.len() == 0 {
        assert forall|c: Seq<char>|
            !(asked(language, registry, c) && !skipped(skiplanguage, c) && registry.has_code(c)) by {
            assert(!has_str(langs@, c));
        }
        return Err(ConfigError::NoLanguages);
    }
    assert(has_str(langs@, langs@[0]@));
    Ok(LangChoice { langs, ignored })
}

/// The line width of a run: the one asked for, else the terminal's, else
/// 80; brought into 20 to 32766.
pub open spec fn line_width(asked: Option<usize>, terminal: Option<usize>) -> int {
    let w = match asked {
        Some(w) => w as int,
        None => match terminal {
            Some(t) => t as int,
            None => 80,
        },
    };
    if w < MIN_WIDTH {
        MIN_WIDTH as int
    } else if w >= MAX_WIDTH_END {
        MAX_WIDTH_END - 1
    } else {
        w
    }
}

/// The strings of an optional list, or none.
pub open spec fn listed(v: Option<Vec<String>>) -> Seq<Seq<char>> {
    match v {
        Some(v) => views(v@),
        None => Seq::empty(),
    }
}

impl Config {
    /// The settings for a command line, with the registry of known languages
    /// and the terminal's width, if known. Also gives the requested codes
    /// that no language has. Fails when no language is left to count.
    pub fn new(cli: Cli, registry: &Registry, terminal_width: Option<usize>) -> (r: Result<(Config, Vec<String>), ConfigError>)
        requires
            registry.wf(),
        ensures
            r is Ok <==> exists|c: Seq<char>|
                asked(cli.language, registry, c) && !skipped(cli.skiplanguage, c) && registry.has_code(c),
            r is Err ==> r == Err::<(Config, Vec<String>), ConfigError>(ConfigError::NoLanguages),
            r is Ok ==> {
                let (config, ignored) = r->Ok_0;
                &&& no_dups(config.langs@)
                &&& no_dups(ignored@)
                &&& forall|c: Seq<char>|
                    #[trigger] has_str(config.langs@, c) <==> (asked(cli.language, registry, c)
                        && !skipped(cli.skiplanguage, c) && registry.has_code(c))
                &&& forall|c: Seq<char>|
                    #[trigger] has_str(ignored@, c) <==> (asked(cli.language, registry, c)
                        && !skipped(cli.skiplanguage, c) && !registry.has_code(c))
                &&& views(config.exclude@) == seq![
                    "__pycache__"@,
                    "build"@,
                    "build.rs"@,
                    "CVS"@,
                    "dist"@,
                    "setup.py"@,
                    "target"@,
                ] + listed(cli.exclude)
                &&& views(config.included@) == listed(cli.included)
                &&& config.maxwidth == line_width(cli.maxwidth, terminal_width) - (LINE_COUNT_WIDTH + 2)
                &&& config.sortbylines == cli.sortbylines
                &&& config.summary == cli.summary
                &&& views(config.files@) == match cli.file {
                    Some(v) => views(v@),
                    None => seq!["."@],
                }
            },
    {
        let choice = match get_langs(cli.language, cli.skiplanguage, registry) {
            Ok(c) => c,
            Err(e) => return Err(e),
        };
        let mut exclude = initialize();
        let ghost defaults = exclude@;
        match cli.exclude {
            Some(v) => {
                let mut extra = v;
                let ghost more = extra@;
                exclude.append(&mut extra);
                assert(views(exclude@) =~= views(defaults) + views(more));
            },
            None => {
                assert(views(exclude@) =~= views(defaults) + Seq::<Seq<char>>::empty());
            },
        }
        let included = match cli.included {
            Some(v) => v,
            None => Vec::new(),
        };
        assert(views(included@) =~= listed(cli.included));
        let w: usize = match cli.maxwidth {
            Some(w) => w,
            None => match terminal_width {
                Some(t) => t,
                None => 80,
            },
        };
        let w: usize = if w < MIN_WIDTH {
            MIN_WIDTH
        } else if w >= MAX_WIDTH_END {
            MAX_WIDTH_END - 1
        } else {
            w
        };
        let files = match cli.file {
            Some(v) => v,
            None => vec![".".to_owned()],
        };
        assert(cli.file is None ==> views(files@) =~= seq!["."@]);
        let config = Config {
            langs: choice.langs,
            exclude,
            included,
            maxwidth: w - (LINE_COUNT_WIDTH + 2),
            sortbylines: cli.sortbylines,
            summary: cli.summary,
            files,
        };
        Ok((config, choice.ignored))
    }
}

} // verus!
