use clc::aggregate::{aggregate, get_sorted_totals, sort_file_data, LangTotal};
use clc::config::Config;
use clc::display::{display_summary, get_lang_width, numbers_of, summary_line};
use clc::full::{display_full, get_filename_width};
use clc::regfile::{merge_entries, parse_registry_text};
use clc::layout::elide;
use clc::registry::initial_data_for_lang;
use clc::types::FileData;
use num_format::SystemLocale;

fn rec(lang: &str, name: &str, lines: usize) -> FileData {
    FileData::new(lang.to_string(), name, lines)
}

fn config(sortbylines: bool, maxwidth: usize) -> Config {
    Config {
        langs: vec![],
        exclude: vec![],
        included: vec![],
        maxwidth,
        sortbylines,
        summary: true,
        files: vec![],
    }
}

fn find<'a>(ts: &'a [LangTotal], code: &str) -> &'a LangTotal {
    ts.iter().find(|t| t.code == code).unwrap()
}

#[test]
fn totals_add_lines_and_count_files() {
    let recs = vec![rec("py", "/a.py", 3), rec("py", "/b.py", 7), rec("rs", "/c.rs", 5), rec("", "/d", 9)];
    let ts = aggregate(&recs);
    assert_eq!(ts.len(), 2);
    let py = find(&ts, "py");
    assert_eq!((py.files, py.lines), (2, 10));
    let rs = find(&ts, "rs");
    assert_eq!((rs.files, rs.lines), (1, 5));
}

#[test]
fn totals_of_no_records_are_empty() {
    assert!(aggregate(&vec![]).is_empty());
}

#[test]
fn python_before_rust_in_summary_order() {
    let reg = initial_data_for_lang();
    let recs = vec![rec("rs", "/c.rs", 5), rec("py", "/a.py", 3), rec("py", "/b.py", 7)];
    let sorted = get_sorted_totals(aggregate(&recs), &reg, false);
    let codes: Vec<&str> = sorted.iter().map(|t| t.code.as_str()).collect();
    assert_eq!(codes, vec!["py", "rs"]);
    assert_eq!((sorted[0].files, sorted[0].lines), (2, 10));
    assert_eq!((sorted[1].files, sorted[1].lines), (1, 5));
}

#[test]
fn name_order_ignores_case() {
    let reg = initial_data_for_lang();
    let ts = vec![
        LangTotal { code: "vala".to_string(), files: 1, lines: 1 },
        LangTotal { code: "cpp".to_string(), files: 1, lines: 1 },
        LangTotal { code: "c".to_string(), files: 1, lines: 1 },
        LangTotal { code: "d".to_string(), files: 1, lines: 1 },
    ];
    let sorted = get_sorted_totals(ts, &reg, false);
    let codes: Vec<&str> = sorted.iter().map(|t| t.code.as_str()).collect();
    assert_eq!(codes, vec!["c", "cpp", "d", "vala"]);
}

#[test]
fn line_order_breaks_ties_by_name() {
    let reg = initial_data_for_lang();
    let ts = vec![
        LangTotal { code: "rs".to_string(), files: 1, lines: 5 },
        LangTotal { code: "go".to_string(), files: 2, lines: 9 },
        LangTotal { code: "c".to_string(), files: 1, lines: 5 },
    ];
    let sorted = get_sorted_totals(ts, &reg, true);
    let codes: Vec<&str> = sorted.iter().map(|t| t.code.as_str()).collect();
    assert_eq!(codes, vec!["c", "rs", "go"]);
}

#[test]
fn sorting_is_stable_under_permutation_and_repetition() {
    let reg = initial_data_for_lang();
    let mk = |v: &[(&str, usize)]| -> Vec<LangTotal> {
        v.iter().map(|(c, l)| LangTotal { code: c.to_string(), files: 1, lines: *l }).collect()
    };
    let a = get_sorted_totals(mk(&[("rs", 4), ("py", 4), ("go", 1)]), &reg, true);
    let b = get_sorted_totals(mk(&[("go", 1), ("rs", 4), ("py", 4)]), &reg, true);
    let ca: Vec<String> = a.iter().map(|t| t.code.clone()).collect();
    let cb: Vec<String> = b.iter().map(|t| t.code.clone()).collect();
    assert_eq!(ca, cb);
    let again = get_sorted_totals(a, &reg, true);
    let cc: Vec<String> = again.iter().map(|t| t.code.clone()).collect();
    assert_eq!(ca, cc);
    assert_eq!(ca, vec!["go", "py", "rs"]);
}

#[test]
fn file_records_group_by_code_then_name() {
    let recs = vec![rec("rs", "/B.rs", 1), rec("py", "/z.py", 2), rec("rs", "/a.rs", 9), rec("py", "/A.py", 5)];
    let by_name = sort_file_data(recs, false);
    let names: Vec<&str> = by_name.iter().map(|f| f.filename.as_str()).collect();
    assert_eq!(names, vec!["/A.py", "/z.py", "/a.rs", "/B.rs"]);
    let by_lines = sort_file_data(by_name, true);
    let names: Vec<&str> = by_lines.iter().map(|f| f.filename.as_str()).collect();
    assert_eq!(names, vec!["/z.py", "/A.py", "/B.rs", "/a.rs"]);
}

#[test]
fn summary_line_layout() {
    let line = summary_line("Python", 6, 2, "2", "10");
    assert_eq!(line, "Python       2 files          10 lines");
    let one = summary_line("Rust", 6, 1, "1", "5");
    assert_eq!(one, "Rust         1 file            5 lines");
}

#[test]
fn numbers_layout() {
    let n: String = numbers_of(12, "12", "1,234").into_iter().collect();
    assert_eq!(n, "     12 files       1,234 lines");
}

#[test]
fn lang_width_is_widest_name() {
    assert_eq!(get_lang_width(&initial_data_for_lang()), 6);
    assert_eq!(get_lang_width(&clc::types::Registry { entries: vec![] }), 10);
}

#[test]
fn elide_keeps_width_exactly() {
    assert_eq!(elide("short", 2, 10), "short");
    let e = elide("/home/user/projects/some/deep/file.rs", 3, 12);
    assert_eq!(e.chars().count(), 12);
    assert_eq!(e, "/ho\u{2026}/file.rs");
}

#[test]
fn summary_report_for_three_files() {
    let reg = initial_data_for_lang();
    let locale = SystemLocale::default().unwrap();
    let recs = vec![rec("py", "/a.py", 3), rec("py", "/b.py", 7), rec("rs", "/c.rs", 5)];
    let lines = display_summary(&recs, &config(false, 67), &reg, &locale);
    assert_eq!(lines.len(), 2);
    assert!(lines[0].starts_with("Python "));
    assert!(lines[0].contains(" 2 files "));
    assert!(lines[0].ends_with(" 10 lines"));
    assert!(lines[1].starts_with("Rust "));
    assert!(lines[1].contains(" 1 file "));
    assert!(lines[1].ends_with(" 5 lines"));
}

#[test]
fn full_report_groups_and_rules() {
    let reg = initial_data_for_lang();
    let locale = SystemLocale::default().unwrap();
    let recs = vec![rec("py", "/a.py", 3), rec("rs", "/c.rs", 5), rec("py", "/b.py", 7), rec("", "/x", 1)];
    let lines = display_full(&recs, &config(false, 67), &reg, &locale);
    // banner, 2 files, rule, subtotal, banner, 1 file, rule, subtotal, closing rule
    assert_eq!(lines.len(), 10);
    assert_eq!(lines[0], "\u{2501}".repeat(4) + " Python " + &"\u{2501}".repeat(5));
    assert!(lines[1].starts_with("/a.py "));
    assert!(lines[1].ends_with(" 3"));
    assert!(lines[2].starts_with("/b.py "));
    assert_eq!(lines[3], "\u{2500}".repeat(17));
    assert!(lines[4].starts_with("Python"));
    assert!(lines[4].ends_with("2 files          10 lines"));
    assert!(lines[5].contains(" Rust "));
    assert!(lines[6].starts_with("/c.rs "));
    assert_eq!(lines[7], "\u{2500}".repeat(17));
    assert!(lines[8].starts_with("Rust"));
    assert_eq!(lines[9], "\u{2501}".repeat(17));
}

#[test]
fn full_report_of_nothing_is_empty() {
    let reg = initial_data_for_lang();
    let locale = SystemLocale::default().unwrap();
    assert!(display_full(&vec![], &config(true, 67), &reg, &locale).is_empty());
}

#[test]
fn full_report_elides_long_names() {
    let reg = initial_data_for_lang();
    let locale = SystemLocale::default().unwrap();
    let long = "/home/user/projects/a/very/long/path/to/some/module/file.rs";
    let recs = vec![rec("rs", long, 1)];
    let lines = display_full(&recs, &config(false, 20), &reg, &locale);
    let name_part: String = lines[1].chars().take(20).collect();
    assert_eq!(name_part.chars().count(), 20);
    assert!(name_part.contains('\u{2026}'));
    assert!(name_part.ends_with("file.rs"));
}

#[test]
fn name_order_lowers_case_first() {
    let (entries, _) = parse_registry_text("aa|apple|aa\nbb|Banana|bb\n");
    let reg = merge_entries(initial_data_for_lang(), entries);
    let ts = vec![
        LangTotal { code: "bb".to_string(), files: 1, lines: 1 },
        LangTotal { code: "aa".to_string(), files: 1, lines: 1 },
    ];
    let sorted = get_sorted_totals(ts, &reg, false);
    let codes: Vec<&str> = sorted.iter().map(|t| t.code.as_str()).collect();
    assert_eq!(codes, vec!["aa", "bb"]);
}

#[test]
fn filename_width_is_bounded() {
    let recs = vec![rec("rs", "/ab.rs", 1), rec("rs", "/\u{e9}t\u{e9}.rs", 1)];
    assert_eq!(get_filename_width(&recs, 67), 7);
    assert_eq!(get_filename_width(&recs, 6), 6);
    assert_eq!(get_filename_width(&vec![], 30), 30);
}
