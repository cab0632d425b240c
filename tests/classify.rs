use clc::count::{classify_and_count, count_newlines, lang_for_line, shebang_lang_of};
use clc::registry::{initial_data_for_lang, lang_for_name};
use clc::regfile::{merge_entries, parse_registry_text};
use clc::types::Registry;

fn all(reg: &Registry) -> Vec<String> {
    reg.entries.iter().map(|e| e.code.clone()).collect()
}

#[test]
fn newline_count_of_empty_is_zero() {
    assert_eq!(count_newlines(b""), 0);
}

#[test]
fn newline_count_without_trailing_newline() {
    assert_eq!(count_newlines(b"a\nb\nc"), 2);
    assert_eq!(count_newlines(b"a\nb\nc\n"), 3);
    assert_eq!(count_newlines(b"no newline"), 0);
}

#[test]
fn newline_count_ignores_carriage_returns() {
    assert_eq!(count_newlines(b"a\r\nb\r\n\r"), 2);
}

#[test]
fn newline_count_of_binary_data() {
    let data: Vec<u8> = vec![0, 10, 255, 10, 10, 13, 0, 200];
    assert_eq!(count_newlines(&data), 3);
}

#[test]
fn extension_gives_language() {
    let reg = initial_data_for_lang();
    let r = classify_and_count("/p/src/lib.rs", b"fn main() {}\n\n", &reg, &all(&reg)).unwrap();
    assert_eq!(r.lang, "rs");
    assert_eq!(r.filename, "/p/src/lib.rs");
    assert_eq!(r.lines, 2);
    let h = classify_and_count("/p/x.h", b"", &reg, &all(&reg)).unwrap();
    assert_eq!(h.lang, "c");
    assert_eq!(h.lines, 0);
}

#[test]
fn extension_path_counts_binary_content() {
    let reg = initial_data_for_lang();
    let data: Vec<u8> = vec![0xff, 0xfe, 10, 0x80, 10];
    let r = classify_and_count("/p/blob.go", &data, &reg, &all(&reg)).unwrap();
    assert_eq!(r.lang, "go");
    assert_eq!(r.lines, 2);
}

#[test]
fn shebang_python_on_extensionless_file() {
    let reg = initial_data_for_lang();
    let text = b"#!/usr/bin/env python3\nimport sys\nprint(sys.argv)\n";
    let r = classify_and_count("/p/bin/tool", text, &reg, &all(&reg)).unwrap();
    assert_eq!(r.lang, "py");
    assert_eq!(r.lines, 3);
}

#[test]
fn shebang_order_and_kinds() {
    assert_eq!(lang_for_line(b"#!/usr/bin/perl -w"), "pl");
    assert_eq!(lang_for_line(b"#!/usr/bin/env ruby"), "rb");
    assert_eq!(lang_for_line(b"#!/usr/bin/tclsh"), "tcl");
    assert_eq!(lang_for_line(b"#!/opt/julia/bin/julia"), "jl");
    assert_eq!(lang_for_line(b"#!/usr/bin/python-perl"), "pl");
    assert_eq!(lang_for_line(b"#!/bin/sh"), "");
}

#[test]
fn shebang_is_on_the_first_line() {
    assert_eq!(shebang_lang_of(b"#!/usr/bin/python3"), "py");
    assert_eq!(shebang_lang_of(b"# python\n"), "");
    assert_eq!(shebang_lang_of(b"#!/usr/bin/python3\n"), "py");
    assert_eq!(shebang_lang_of(b"print()\n#!/usr/bin/python3\n"), "");
}

#[test]
fn undetermined_language_gives_no_record() {
    let reg = initial_data_for_lang();
    assert!(classify_and_count("/p/README", b"hello\n", &reg, &all(&reg)).is_none());
    assert!(classify_and_count("/p/run", b"#!/bin/sh\necho\n", &reg, &all(&reg)).is_none());
}

#[test]
fn invalid_utf8_text_gives_no_record() {
    let reg = initial_data_for_lang();
    let data: Vec<u8> = vec![b'#', b'!', b'p', b'y', b't', b'h', b'o', b'n', 10, 0xff, 10];
    assert!(classify_and_count("/p/tool", &data, &reg, &all(&reg)).is_none());
}

#[test]
fn single_claim_assigns_that_language() {
    let reg = initial_data_for_lang();
    assert_eq!(lang_for_name("/p/a.pyw", &reg, &all(&reg)).unwrap(), "py");
    assert_eq!(lang_for_name("/p/a.cxx", &reg, &all(&reg)).unwrap(), "cpp");
    assert_eq!(lang_for_name("/p/a.vala", &reg, &all(&reg)).unwrap(), "vala");
    assert!(lang_for_name("/p/.rs", &reg, &all(&reg)).is_none());
    assert!(lang_for_name("/p/noext", &reg, &all(&reg)).is_none());
}

#[test]
fn shared_extension_goes_to_first_entry() {
    let reg = initial_data_for_lang();
    let (entries, bad) = parse_registry_text("zz|Zed|rs\n");
    assert!(bad.is_empty());
    let reg = merge_entries(reg, entries);
    assert_eq!(lang_for_name("/p/a.rs", &reg, &all(&reg)).unwrap(), "rs");
}

#[test]
fn single_line_shebang_without_newline() {
    let reg = initial_data_for_lang();
    let r = classify_and_count("/p/tool", b"#!/usr/bin/python", &reg, &all(&reg)).unwrap();
    assert_eq!(r.lang, "py");
    assert_eq!(r.lines, 0);
}

#[test]
fn crlf_and_unterminated_last_line() {
    let reg = initial_data_for_lang();
    let r = classify_and_count("/p/x.py", b"one\r\ntwo\nthree", &reg, &all(&reg)).unwrap();
    assert_eq!(r.lang, "py");
    assert_eq!(r.lines, 2);
}

#[test]
fn extension_lookup_uses_selected_languages_only() {
    let (entries, _) = parse_registry_text("aa|Alpha|x\nbb|Beta|x\n");
    let reg = merge_entries(initial_data_for_lang(), entries);
    let only_b = vec!["bb".to_string()];
    assert_eq!(lang_for_name("/p/f.x", &reg, &only_b).unwrap(), "bb");
    let r = classify_and_count("/p/f.x", b"1\n", &reg, &only_b).unwrap();
    assert_eq!(r.lang, "bb");
    let both = vec!["bb".to_string(), "aa".to_string()];
    assert_eq!(lang_for_name("/p/f.x", &reg, &both).unwrap(), "aa");
    assert!(lang_for_name("/p/f.x", &reg, &vec!["rs".to_string()]).is_none());
}
