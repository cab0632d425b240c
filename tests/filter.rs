use clc::config::Config;
use clc::consts::initialize;
use clc::registry::initial_data_for_lang;
use clc::valid::{is_valid_dir, is_valid_entry, is_valid_file};

fn strings(v: &[&str]) -> Vec<String> {
    v.iter().map(|s| s.to_string()).collect()
}

fn config(langs: &[&str], exclude: &[&str], included: &[&str]) -> Config {
    Config {
        langs: strings(langs),
        exclude: strings(exclude),
        included: strings(included),
        maxwidth: 67,
        sortbylines: false,
        summary: false,
        files: strings(&["."]),
    }
}

#[test]
fn file_with_selected_extension_is_eligible() {
    let reg = initial_data_for_lang();
    let c = config(&["py", "rs"], &[], &[]);
    assert!(is_valid_file("/home/u/proj/src/main.rs", &c, &reg));
    assert!(is_valid_file("/home/u/proj/a.py", &c, &reg));
    assert!(!is_valid_file("/home/u/proj/a.c", &c, &reg));
}

#[test]
fn extension_is_case_sensitive() {
    let reg = initial_data_for_lang();
    let c = config(&["pl", "py"], &[], &[]);
    assert!(is_valid_file("/x/Build.PL", &c, &reg));
    assert!(!is_valid_file("/x/script.PY", &c, &reg));
}

#[test]
fn dotfile_env_is_never_eligible() {
    let reg = initial_data_for_lang();
    let c = config(&["py", "rs", "c"], &[], &[]);
    assert!(!is_valid_file("/home/u/proj/.env", &c, &reg));
    assert!(!is_valid_file(".env", &c, &reg));
    assert!(!is_valid_file("/home/u/proj/.hidden.py", &c, &reg));
}

#[test]
fn dotted_segment_rejects_path() {
    let reg = initial_data_for_lang();
    let c = config(&["py"], &[], &[]);
    assert!(!is_valid_file("/home/u/.config/tool/x.py", &c, &reg));
    assert!(!is_valid_file("/home/u/.git/hooks/pre.py", &c, &reg));
    assert!(is_valid_file("/home/u/./tool/x.py", &c, &reg));
    assert!(is_valid_file("../tool/x.py", &c, &reg));
}

#[test]
fn included_name_overrides_dot_and_extension() {
    let reg = initial_data_for_lang();
    let c = config(&["py"], &[], &["Makefile", ".env"]);
    assert!(is_valid_file("/p/Makefile", &c, &reg));
    assert!(is_valid_file("/p/.env", &c, &reg));
    assert!(!is_valid_file("/p/README", &c, &reg));
}

#[test]
fn extensionless_file_is_not_eligible() {
    let reg = initial_data_for_lang();
    let c = config(&["py", "rs"], &[], &[]);
    assert!(!is_valid_file("/p/script", &c, &reg));
    assert!(!is_valid_file("/", &c, &reg));
    assert!(!is_valid_file("", &c, &reg));
    assert!(!is_valid_file("/p/..", &c, &reg));
}

#[test]
fn excluded_segment_rejects_file_and_folder() {
    let reg = initial_data_for_lang();
    let c = config(&["py", "rs"], &initialize().iter().map(|s| s.as_str()).collect::<Vec<_>>(), &[]);
    assert!(!is_valid_file("/p/target/debug/build/x.rs", &c, &reg));
    assert!(!is_valid_file("/p/setup.py", &c, &reg));
    assert!(!is_valid_file("/p/build.rs", &c, &reg));
    assert!(!is_valid_dir("/p/target", &c));
    assert!(!is_valid_dir("/p/__pycache__", &c));
    assert!(is_valid_dir("/p/src", &c));
}

#[test]
fn exclusion_matches_whole_segments_only() {
    let reg = initial_data_for_lang();
    let c = config(&["py"], &["build"], &[]);
    assert!(is_valid_dir("/p/build-x", &c));
    assert!(is_valid_file("/p/build-x/a.py", &c, &reg));
    assert!(is_valid_file("/p/rebuild/a.py", &c, &reg));
    assert!(!is_valid_file("/p/build/a.py", &c, &reg));
}

#[test]
fn excluded_folder_prunes_deep_descendants() {
    let reg = initial_data_for_lang();
    let c = config(&["py"], &["vendor"], &[]);
    assert!(!is_valid_dir("/p/vendor", &c));
    assert!(!is_valid_dir("/p/vendor/a/b/c", &c));
    assert!(!is_valid_file("/p/vendor/a/b/c/d.py", &c, &reg));
    assert!(!is_valid_entry("/p/vendor/a", true, &c, &reg));
    assert!(!is_valid_entry("/p/vendor/a/x.py", false, &c, &reg));
}

#[test]
fn dot_folders_are_pruned() {
    let c = config(&["py"], &[], &[]);
    assert!(!is_valid_dir("/p/.git", &c));
    assert!(!is_valid_dir("/p/.venv/lib", &c));
    assert!(is_valid_dir("/p/src/.", &c));
    assert!(is_valid_dir("/p", &c));
}

#[test]
fn entry_dispatches_on_kind() {
    let reg = initial_data_for_lang();
    let c = config(&["py"], &[], &[]);
    assert!(is_valid_entry("/p/pkg", true, &c, &reg));
    assert!(!is_valid_entry("/p/pkg", false, &c, &reg));
    assert!(is_valid_entry("/p/pkg/a.py", false, &c, &reg));
}
