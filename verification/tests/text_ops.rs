use wg_profiles::text::{
    contains, ends_with, split_lines, starts_with, str_le, take_token, trim, trim_start,
};

#[test]
fn trimming_removes_whitespace_at_both_ends() {
    assert_eq!(trim("  hello world \n"), "hello world");
    assert_eq!(trim(""), "");
    assert_eq!(trim(" \t\r\n "), "");
    assert_eq!(trim_start("  x "), "x ");
}

#[test]
fn splitting_lines_handles_all_break_shapes() {
    assert_eq!(split_lines("a\nb\nc"), vec!["a", "b", "c"]);
    assert_eq!(split_lines("a\r\nb\r\n"), vec!["a", "b"]);
    assert_eq!(split_lines("a\n\nb"), vec!["a", "", "b"]);
    assert_eq!(split_lines("a\n"), vec!["a"]);
    assert_eq!(split_lines(""), Vec::<String>::new());
}

#[test]
fn prefix_suffix_and_substring_tests_work() {
    assert!(starts_with("interface: wg0-dpto", "interface: "));
    assert!(!starts_with("inter", "interface: "));
    assert!(ends_with("wg0-dpto.conf", ".conf"));
    assert!(!ends_with("wg0-dpto.confx", ".conf"));
    assert!(contains("scope global inet here", "inet"));
    assert!(!contains("scope global", "inet"));
    assert!(contains("anything", ""));
}

#[test]
fn lexicographic_comparison_is_bytewise_ascending() {
    assert!(str_le("alpha", "zeta"));
    assert!(!str_le("zeta", "alpha"));
    assert!(str_le("a", "ab"));
    assert!(str_le("same", "same"));
    assert!(str_le("B", "a"));
}

#[test]
fn token_extraction_stops_at_whitespace() {
    assert_eq!(take_token("192.168.100.105/32 scope"), "192.168.100.105/32");
    assert_eq!(take_token(""), "");
    assert_eq!(take_token(" leading"), "");
}
