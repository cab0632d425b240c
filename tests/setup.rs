use clc::config::{get_langs, maxsize_in_range, parse_usize, Cli, Config, ConfigError, WidthError};
use clc::consts::initialize;
use clc::path::abspath;
use clc::regfile::{merge_entries, parse_registry_text};
use clc::registry::initial_data_for_lang;
use clc::types::LangData;

fn strings(v: &[&str]) -> Vec<String> {
    v.iter().map(|s| s.to_string()).collect()
}

fn cli() -> Cli {
    Cli {
        language: None,
        skiplanguage: None,
        exclude: None,
        included: None,
        maxwidth: None,
        sortbylines: false,
        summary: false,
        file: None,
    }
}

#[test]
fn width_parsing() {
    assert_eq!(maxsize_in_range("80"), Ok(80));
    assert_eq!(maxsize_in_range("+20"), Ok(20));
    assert_eq!(maxsize_in_range("32766"), Ok(32766));
    assert_eq!(maxsize_in_range("32767"), Err(WidthError::OutOfRange));
    assert_eq!(maxsize_in_range("19"), Err(WidthError::OutOfRange));
    assert_eq!(maxsize_in_range("abc"), Err(WidthError::Invalid));
    assert_eq!(maxsize_in_range(""), Err(WidthError::Invalid));
    assert_eq!(maxsize_in_range("-5"), Err(WidthError::Invalid));
    assert_eq!(maxsize_in_range("99999999999999999999999"), Err(WidthError::Invalid));
}

#[test]
fn usize_parsing() {
    assert_eq!(parse_usize("0"), Some(0));
    assert_eq!(parse_usize("007"), Some(7));
    assert_eq!(parse_usize("+"), None);
    assert_eq!(parse_usize(" 1"), None);
    assert_eq!(parse_usize("18446744073709551615"), Some(usize::MAX));
    assert_eq!(parse_usize("18446744073709551616"), None);
}

#[test]
fn all_languages_by_default() {
    let reg = initial_data_for_lang();
    let choice = get_langs(None, None, &reg).ok().unwrap();
    assert_eq!(choice.langs.len(), 13);
    assert!(choice.ignored.is_empty());
}

#[test]
fn skipped_and_unknown_languages() {
    let reg = initial_data_for_lang();
    let choice = get_langs(Some(strings(&["py", "rs", "xx", "py"])), Some(strings(&["rs"])), &reg).ok().unwrap();
    assert_eq!(choice.langs, strings(&["py"]));
    assert_eq!(choice.ignored, strings(&["xx"]));
    let all_but = get_langs(None, Some(strings(&["d", "cpp"])), &reg).ok().unwrap();
    assert_eq!(all_but.langs.len(), 11);
    assert!(!all_but.langs.contains(&"d".to_string()));
}

#[test]
fn no_language_left_is_an_error() {
    let reg = initial_data_for_lang();
    assert_eq!(get_langs(Some(strings(&["rs"])), Some(strings(&["rs"])), &reg).err(), Some(ConfigError::NoLanguages));
    assert_eq!(get_langs(Some(strings(&["zz"])), None, &reg).err(), Some(ConfigError::NoLanguages));
    assert_eq!(get_langs(Some(vec![]), None, &reg).err(), Some(ConfigError::NoLanguages));
}

#[test]
fn config_defaults() {
    let reg = initial_data_for_lang();
    let (config, ignored) = Config::new(cli(), &reg, None).ok().unwrap();
    assert!(ignored.is_empty());
    assert_eq!(config.exclude, initialize());
    assert!(config.included.is_empty());
    assert_eq!(config.maxwidth, 80 - 13);
    assert_eq!(config.files, strings(&["."]));
    assert!(!config.summary && !config.sortbylines);
}

#[test]
fn config_from_options() {
    let reg = initial_data_for_lang();
    let mut c = cli();
    c.language = Some(strings(&["rs", "nope"]));
    c.exclude = Some(strings(&["vendor"]));
    c.included = Some(strings(&["Makefile"]));
    c.maxwidth = Some(100);
    c.sortbylines = true;
    c.summary = true;
    c.file = Some(strings(&["src", "lib.rs"]));
    let (config, ignored) = Config::new(c, &reg, Some(50)).ok().unwrap();
    assert_eq!(config.langs, strings(&["rs"]));
    assert_eq!(ignored, strings(&["nope"]));
    assert_eq!(config.exclude.last().unwrap(), "vendor");
    assert_eq!(config.exclude.len(), 8);
    assert_eq!(config.included, strings(&["Makefile"]));
    assert_eq!(config.maxwidth, 87);
    assert!(config.sortbylines && config.summary);
    assert_eq!(config.files, strings(&["src", "lib.rs"]));
}

#[test]
fn terminal_width_is_used_and_bounded() {
    let reg = initial_data_for_lang();
    assert_eq!(Config::new(cli(), &reg, Some(120)).ok().unwrap().0.maxwidth, 107);
    assert_eq!(Config::new(cli(), &reg, Some(5)).ok().unwrap().0.maxwidth, 7);
    assert_eq!(Config::new(cli(), &reg, Some(100000)).ok().unwrap().0.maxwidth, 32766 - 13);
}

#[test]
fn config_without_languages_fails() {
    let reg = initial_data_for_lang();
    let mut c = cli();
    c.skiplanguage = Some(strings(&["c", "cpp", "d", "go", "java", "jl", "nim", "pl", "py", "rb", "rs", "tcl", "vala"]));
    assert_eq!(Config::new(c, &reg, None).err(), Some(ConfigError::NoLanguages));
}

#[test]
fn default_exclusions() {
    assert_eq!(initialize(), strings(&["__pycache__", "build", "build.rs", "CVS", "dist", "setup.py", "target"]));
}

#[test]
fn builtin_registry() {
    let reg = initial_data_for_lang();
    assert_eq!(reg.entries.len(), 13);
    assert_eq!(reg.entries[7].code, "pl");
    assert_eq!(reg.entries[7].data.name, "Perl");
    assert_eq!(reg.entries[7].data.exts, strings(&["pl", "PL", "pm"]));
}

#[test]
fn lang_data_holds_name_and_extensions() {
    let d = LangData::new("Pascal", vec!["pas", "pp"]);
    assert_eq!(d.name, "Pascal");
    assert_eq!(d.exts, strings(&["pas", "pp"]));
}

#[test]
fn registry_text_lines() {
    let text = "# comment\n\n  pas | Pascal | .pas pp\tinc  \r\nbroken line\nsql|SQL|sql|extra\n";
    let (entries, bad) = parse_registry_text(text);
    assert_eq!(entries.len(), 2);
    assert_eq!(entries[0].code, "pas");
    assert_eq!(entries[0].data.name, "Pascal");
    assert_eq!(entries[0].data.exts, strings(&["pas", "pp", "inc"]));
    assert_eq!(entries[1].code, "sql");
    assert_eq!(entries[1].data.exts, strings(&["sql|extra"]));
    assert_eq!(bad, strings(&["broken line"]));
}

#[test]
fn later_registry_entries_override() {
    let reg = initial_data_for_lang();
    let (entries, _) = parse_registry_text("py|Snake|snk\npas|Pascal|pas\npas|Object Pascal|pas pp\n");
    let reg = merge_entries(reg, entries);
    assert_eq!(reg.entries.len(), 14);
    assert_eq!(reg.entries[8].code, "py");
    assert_eq!(reg.entries[8].data.name, "Snake");
    assert_eq!(reg.entries[13].data.name, "Object Pascal");
    assert_eq!(reg.entries[13].data.exts, strings(&["pas", "pp"]));
}

#[test]
fn absolute_paths() {
    assert_eq!(abspath("/usr/src", Some("/elsewhere".to_string())), "/usr/src");
    assert_eq!(abspath("src", Some("/home/u/src".to_string())), "/home/u/src");
    assert_eq!(abspath("missing", None), "missing");
}
