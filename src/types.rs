use vstd::prelude::*;
use crate::text::{has_str, views};

verus! {

/// What one counted file came to: its language code (empty when none could
/// be told), its name, and how many `\n` bytes it holds.
pub struct FileData {
    pub lang: String,
    pub filename: String,
    pub lines: usize,
}

impl FileData {
    pub fn new(lang: String, filename: &str, lines: usize) -> (r: FileData)
        ensures
            r.lang@ == lang@,
            r.filename@ == filename@,
            r.lines == lines,
    {
        FileData { lang, filename: filename.to_owned(), lines }
    }
}

/// A language's display name and the file extensions (without a leading
/// dot) that it claims.
pub struct LangData {
    pub name: String,
    pub exts: Vec<String>,
}

impl LangData {
    pub fn new(name: &str, exts: Vec<&str>) -> (r: LangData)
        ensures
            r.name@ == name@,
            views(r.exts@) == exts@.map_values(|e: &str| e@),
    {
        let mut v: Vec<String> = Vec::new();
        let mut i: usize = 0;
        while i < exts.len()
            invariant
                i <= exts.len(),
                views(v@) == exts@.take(i as int).map_values(|e: &str| e@),
            decreases exts.len() - i,
        {
            let ghost before = v@;
            v.push(exts[i].to_owned());
            assert(views(v@) =~= views(before).push(exts@[i as int]@));
            assert(exts@.take(i + 1).map_values(|e: &str| e@) =~= exts@.take(
                i as int,
            ).map_values(|e: &str| e@).push(exts@[i as int]@));
            i = i + 1;
        }
        assert(exts@.take(exts.len() as int) =~= exts@);
        LangData { name: name.to_owned(), exts: v }
    }
}

/// One language of the registry: its short code and its data.
pub struct LangEntry {
    pub code: String,
    pub data: LangData,
}

/// No two of `entries` share a code.
pub open spec fn codes_unique(entries: Seq<LangEntry>) -> bool {
    forall|i: int, j: int|
        #![trigger entries[i], entries[j]]
        0 <= i < entries.len() && 0 <= j < entries.len() && i != j ==> entries[i].code@
            != entries[j].code@
}

/// The languages known to a run, in the order in which they were defined.
pub struct Registry {
    pub entries: Vec<LangEntry>,
}

impl Registry {
    /// No two entries share a code.
    pub open spec fn wf(&self) -> bool {
        codes_unique(self.entries@)
    }

    /// Entry `i` claims the extension `ext`.
    pub open spec fn claims(&self, i: int, ext: Seq<char>) -> bool {
        has_str(self.entries@[i].data.exts@, ext)
    }

    /// Some entry has the code `code`.
    pub open spec fn has_code(&self, code: Seq<char>) -> bool {
        exists|i: int| 0 <= i < self.entries@.len() && #[trigger] self.entries@[i].code@ == code
    }

    /// The position of the entry whose code is `code` (the only one, in a
    /// well-formed registry).
    pub open spec fn index_of_code(&self, code: Seq<char>) -> int {
        choose|i: int| 0 <= i < self.entries@.len() && #[trigger] self.entries@[i].code@ == code
    }

    /// The display name of the language with code `code`.
    pub open spec fn name_of(&self, code: Seq<char>) -> Seq<char> {
        self.entries@[self.index_of_code(code)].data.name@
    }

    /// The position of the entry with code `code`, if there is one.
    pub fn find(&self, code: &String) -> (r: Option<usize>)
        requires
            self.wf(),
        ensures
            r is Some <==> self.has_code(code@),
            r is Some ==> r->0 == self.index_of_code(code@) && r->0 < self.entries@.len(),
    {
        let mut i: usize = 0;
        while i < self.entries.len()
            invariant
                self.wf(),
                i <= self.entries@.len(),
                forall|j: int| 0 <= j < i ==> self.entries@[j].code@ != code@,
            decreases self.entries@.len() - i,
        {
            if self.entries[i].code == *code {
                proof {
                    let k = self.index_of_code(code@);
                    assert(self.entries@[i as int].code@ == code@);
                    assert(0 <= k < self.entries@.len() && self.entries@[k].code@ == code@);
                    if k != i {
                        assert(self.entries@[k].code@ != self.entries@[i as int].code@);
                    }
                }
                return Some(i);
            }
            i = i + 1;
        }
        None
    }
}

} // verus!
