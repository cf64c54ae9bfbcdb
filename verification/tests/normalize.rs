use scan_report::model::{normalize_cve, normalize_severity, normalize_targets, Vuln};
use scan_report::text::{join_paragraphs, replace_all, split_on, trim};

#[test]
fn paragraphs_join_with_single_newline() {
    let paras = vec!["first paragraph".to_string(), "second".to_string(), "third".to_string()];
    let joined = join_paragraphs(&paras);
    assert_eq!(joined, "first paragraph\nsecond\nthird");
}

#[test]
fn joined_paragraphs_split_back() {
    let paras = vec!["alpha".to_string(), "beta".to_string()];
    let joined = join_paragraphs(&paras);
    let back: Vec<String> = split_on(&joined, '\n');
    assert_eq!(back, paras);
}

#[test]
fn join_of_single_paragraph_is_itself() {
    let paras = vec!["only one".to_string()];
    assert_eq!(join_paragraphs(&paras), "only one");
}

#[test]
fn join_of_no_paragraphs_is_empty() {
    let paras: Vec<String> = Vec::new();
    assert_eq!(join_paragraphs(&paras), "");
}

#[test]
fn two_targets_split_and_trimmed() {
    let targets = normalize_targets("10.0.0.1; 10.0.0.2");
    assert_eq!(targets, vec!["10.0.0.1".to_string(), "10.0.0.2".to_string()]);
}

#[test]
fn empty_target_string_yields_one_empty_target() {
    let targets = normalize_targets("");
    assert_eq!(targets, vec!["".to_string()]);
}

#[test]
fn single_target_passes_through() {
    let targets = normalize_targets("192.168.1.7");
    assert_eq!(targets, vec!["192.168.1.7".to_string()]);
}

#[test]
fn severity_tokens_map_to_glyphs() {
    assert_eq!(normalize_severity("high"), "高");
    assert_eq!(normalize_severity("middle"), "中");
    assert_eq!(normalize_severity("low"), "低");
}

#[test]
fn unrecognized_severity_unchanged() {
    assert_eq!(normalize_severity("critical"), "critical");
    assert_eq!(normalize_severity(""), "");
}

#[test]
fn severity_replacement_is_substring_based() {
    assert_eq!(normalize_severity("higher"), "高er");
}

#[test]
fn empty_cve_gets_sentinel() {
    assert_eq!(normalize_cve(String::new()), "漏洞暂无CVE编号");
}

#[test]
fn nonempty_cve_unchanged() {
    assert_eq!(normalize_cve("CVE-2021-44228".to_string()), "CVE-2021-44228");
}

#[test]
fn trim_removes_surrounding_whitespace() {
    assert_eq!(trim("  10.0.0.2 \t"), "10.0.0.2");
    assert_eq!(trim("   "), "");
    assert_eq!(trim("x"), "x");
}

#[test]
fn trim_removes_unicode_whitespace() {
    assert_eq!(trim("\u{a0}10.0.0.3\u{3000}"), "10.0.0.3");
    assert_eq!(trim("\u{2028}\u{2009}x\u{85}"), "x");
    assert_eq!(trim("a\u{a0}b"), "a\u{a0}b");
}

#[test]
fn targets_trimmed_like_unicode_trim() {
    let targets = normalize_targets("10.0.0.1;\u{a0}10.0.0.2\u{2003}");
    assert_eq!(targets, vec!["10.0.0.1".to_string(), "10.0.0.2".to_string()]);
}

#[test]
fn replace_all_replaces_every_occurrence() {
    assert_eq!(replace_all("ababa", "ab", "c"), "cca");
    assert_eq!(replace_all("none here", "xyz", "q"), "none here");
}

#[test]
fn vuln_from_raw_applies_every_normalization() {
    let v = Vuln::from_raw(
        42,
        String::new(),
        "Some flaw".to_string(),
        vec!["para one".to_string(), "para two".to_string()],
        vec!["fix it".to_string()],
        "2024-01-01".to_string(),
        "2024-01-02".to_string(),
        "10.0.0.1 ;10.0.0.2".to_string(),
        "high".to_string(),
    );
    assert_eq!(v.vul_id, 42);
    assert_eq!(v.cve_id, "漏洞暂无CVE编号");
    assert_eq!(v.i18n_name, "Some flaw");
    assert_eq!(v.i18n_description, "para one\npara two");
    assert_eq!(v.i18n_solution, "fix it");
    assert_eq!(v.date_found, "2024-01-01");
    assert_eq!(v.date_recorded, "2024-01-02");
    assert_eq!(v.target, vec!["10.0.0.1".to_string(), "10.0.0.2".to_string()]);
    assert_eq!(v.vuln_level, "高");
}
