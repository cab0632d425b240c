use vstd::prelude::*;
use crate::config::Config;
use crate::path::{
    base_name, base_of, ext_of, extension, is_dotted, is_normal, lemma_keep_normal_normal,
    lemma_segments_of_descendant, normal_pieces, segments, split_chars, split_on,
};
use crate::text::{char_views, chars_of, contains_str, has_str, starts_with_char, string_of};
use crate::types::Registry;

verus! {

/// Some segment in `segs` is a name in `names`.
pub open spec fn any_listed(segs: Seq<Seq<char>>, names: Seq<String>) -> bool {
    exists|k: int| 0 <= k < segs.len() && has_str(names, #[trigger] segs[k])
}

/// Some segment in `segs` is hidden by the dot convention.
pub open spec fn any_dotted(segs: Seq<Seq<char>>) -> bool {
    exists|k: int| 0 <= k < segs.len() && is_dotted(#[trigger] segs[k])
}

/// The code `code` is that of a registry entry that claims `ext`.
pub open spec fn code_claims(reg: &Registry, code: Seq<char>, ext: Seq<char>) -> bool {
    exists|j: int|
        0 <= j < reg.entries@.len() && #[trigger] reg.entries@[j].code@ == code && reg.claims(
            j,
            ext,
        )
}

/// Some selected language claims the extension `ext`.
pub open spec fn selected_claims(config: &Config, reg: &Registry, ext: Seq<char>) -> bool {
    exists|i: int| 0 <= i < config.langs@.len() && code_claims(reg, #[trigger] config.langs@[i]@, ext)
}

/// Whether the file at `path` is to be counted.
pub open spec fn file_ok(path: Seq<char>, config: &Config, reg: &Registry) -> bool {
    match base_name(path) {
        None => false,
        Some(name) => if has_str(config.included@, name) {
            true
        } else if starts_with_char(name, '.') {
            false
        } else if any_listed(segments(path), config.exclude@) {
            false
        } else if any_dotted(segments(path)) {
            false
        } else {
            match ext_of(name) {
                None => false,
                Some(e) => selected_claims(config, reg, e),
            }
        },
    }
}

/// Whether the folder at `path` is to be descended into.
pub open spec fn dir_ok(path: Seq<char>, config: &Config) -> bool {
    !any_listed(segments(path), config.exclude@) && !any_dotted(segments(path))
}

/// Whether some segment of `segs` is one of `names`.
fn any_listed_in(segs: &Vec<Vec<char>>, names: &Vec<String>) -> (r: bool)
    ensures
        r == any_listed(char_views(segs@), names@),
{
    let mut k: usize = 0;
    while k < segs.len()
        invariant
            k <= segs.len(),
            forall|j: int| 0 <= j < k ==> !has_str(names@, #[trigger] char_views(segs@)[j]),
        decreases segs.len() - k,
    {
        let s = string_of(segs[k].as_slice());
        if contains_str(names, &s) {
            assert(has_str(names@, char_views(segs@)[k as int]));
            return true;
        }
        k = k + 1;
    }
    false
}

/// Whether some segment of `segs` is hidden by the dot convention.
fn any_dotted_in(segs: &Vec<Vec<char>>) -> (r: bool)
    ensures
        r == any_dotted(char_views(segs@)),
{
    let mut k: usize = 0;
    while k < segs.len()
        invariant
            k <= segs.len(),
            forall|j: int| 0 <= j < k ==> !is_dotted(#[trigger] char_views(segs@)[j]),
        decreases segs.len() - k,
    {
        if segs[k].len() > 1 && segs[k][0] == '.' {
            assert(is_dotted(char_views(segs@)[k as int]));
            return true;
        }
        k = k + 1;
    }
    false
}

/// Whether the entry with code `code` claims `ext`.
fn code_claims_exec(reg: &Registry, code: &String, ext: &String) -> (r: bool)
    ensures
        r == code_claims(reg, code@, ext@),
{
    let mut j: usize = 0;
    while j < reg.entries.len()
        invariant
            j <= reg.entries@.len(),
            forall|k: int|
                0 <= k < j ==> !(#[trigger] reg.entries@[k].code@ == code@ && reg.claims(
                    k,
                    ext@,
                )),
        decreases reg.entries@.len() - j,
    {
        if reg.entries[j].code == *code && contains_str(&reg.entries[j].data.exts, ext) {
            return true;
        }
        j = j + 1;
    }
    false
}

/// Whether some selected language claims `ext`.
fn selected_claims_exec(config: &Config, reg: &Registry, ext: &String) -> (r: bool)
    ensures
        r == selected_claims(config, reg, ext@),
{
    let mut i: usize = 0;
    while i < config.langs.len()
        invariant
            i <= config.langs@.len(),
            forall|k: int|
                0 <= k < i ==> !code_claims(reg, #[trigger] config.langs@[k]@, ext@),
        decreases config.langs@.len() - i,
    {
        if code_claims_exec(reg, &config.langs[i], ext) {
            return true;
        }
        i = i + 1;
    }
    false
}

/// Whether the file at `filename` is to be counted. In order: a file whose
/// name is included is counted; a name that starts with `.` is not; nor a
/// path with a segment that is excluded or that starts with `.`; otherwise
/// the file is counted when a selected language claims its extension.
pub fn is_valid_file(filename: &str, config: &Config, registry: &Registry) -> (r: bool)
    ensures
        r == file_ok(filename@, config, registry),
{
    let path = chars_of(filename);
    let pieces = split_chars(path.as_slice(), '/');
    let name = match base_of(&pieces) {
        None => return false,
        Some(n) => n,
    };
    let name_s = string_of(name.as_slice());
    if contains_str(&config.included, &name_s) {
        return true;
    }
    if name.len() > 0 && name[0] == '.' {
        return false;
    }
    let segs = normal_pieces(&pieces);
    if any_listed_in(&segs, &config.exclude) {
        return false;
    }
    if any_dotted_in(&segs) {
        return false;
    }
    match extension(name.as_slice()) {
        None => false,
        Some(e) => selected_claims_exec(config, registry, &string_of(e.as_slice())),
    }
}

/// Whether the folder at `dirname` is to be descended into: not when one of
/// its segments is excluded or starts with `.`.
pub fn is_valid_dir(dirname: &str, config: &Config) -> (r: bool)
    ensures
        r == dir_ok(dirname@, config),
{
    let path = chars_of(dirname);
    let pieces = split_chars(path.as_slice(), '/');
    let segs = normal_pieces(&pieces);
    !any_listed_in(&segs, &config.exclude) && !any_dotted_in(&segs)
}

/// Whether a walked entry is to be kept: a folder by `is_valid_dir`, any
/// other entry by `is_valid_file`.
pub fn is_valid_entry(path: &str, is_dir: bool, config: &Config, registry: &Registry) -> (r: bool)
    ensures
        r == if is_dir {
            dir_ok(path@, config)
        } else {
            file_ok(path@, config, registry)
        },
{
    if is_dir {
        is_valid_dir(path, config)
    } else {
        is_valid_file(path, config, registry)
    }
}

/// A path with a segment that starts with `.` is never counted, unless its
/// file name is included.
pub proof fn lemma_dotted_path_rejected(
    path: Seq<char>,
    config: &Config,
    reg: &Registry,
    k: int,
)
    requires
        0 <= k < segments(path).len(),
        starts_with_char(segments(path)[k], '.'),
        base_name(path) is Some ==> !has_str(config.included@, base_name(path)->0),
    ensures
        !file_ok(path, config, reg),
{
    lemma_keep_normal_normal(split_on(path, '/'));
    assert(is_normal(segments(path)[k]));
    assert(segments(path)[k] != seq!['.']);
    if segments(path)[k].len() == 1 {
        assert(segments(path)[k] =~= seq!['.']);
    }
    assert(is_dotted(segments(path)[k]));
}

/// When a folder's path has an excluded segment, the folder is not walked,
/// nor is any folder beneath it, and no file beneath it is counted unless
/// its file name is included.
pub proof fn lemma_excluded_dir_prunes(
    dir: Seq<char>,
    rest: Seq<char>,
    config: &Config,
    reg: &Registry,
    k: int,
)
    requires
        0 <= k < segments(dir).len(),
        has_str(config.exclude@, segments(dir)[k]),
        base_name(dir + seq!['/'] + rest) is Some ==> !has_str(
            config.included@,
            base_name(dir + seq!['/'] + rest)->0,
        ),
    ensures
        !dir_ok(dir, config),
        !dir_ok(dir + seq!['/'] + rest, config),
        !file_ok(dir + seq!['/'] + rest, config, reg),
{
    let p = dir + seq!['/'] + rest;
    lemma_segments_of_descendant(dir, rest);
    assert(segments(p)[k] == segments(dir)[k]);
    assert(any_listed(segments(dir), config.exclude@));
    assert(any_listed(segments(p), config.exclude@));
}

} // verus!
