use file_rs::file::{file_name, normalize};
use file_rs::util::{is_hidden, parse_human_age, parse_human_size, split_num_unit};

#[test]
fn size_round_trip_values() {
    assert_eq!(parse_human_size("100MB"), Some(100 * 1024 * 1024));
    assert_eq!(parse_human_size("64KB"), Some(64 * 1024));
    assert_eq!(parse_human_size("1.5G"), Some(1024 * 1024 * 1024 + 512 * 1024 * 1024));
    assert_eq!(parse_human_size("2tb"), Some(2 * 1024u64.pow(4)));
    assert_eq!(parse_human_size("10"), Some(10));
    assert_eq!(parse_human_size("10b"), Some(10));
}

#[test]
fn age_round_trip_values() {
    assert_eq!(parse_human_age("1d"), Some(86400));
    assert_eq!(parse_human_age("1.5w"), Some(907200));
    assert_eq!(parse_human_age("30s"), Some(30));
    assert_eq!(parse_human_age("30"), Some(30));
    assert_eq!(parse_human_age("2h"), Some(7200));
    assert_eq!(parse_human_age("5m"), Some(300));
}

#[test]
fn parse_is_case_insensitive_and_trims() {
    assert_eq!(parse_human_size("100mb"), parse_human_size("100MB"));
    assert_eq!(parse_human_size("  64kb  "), Some(64 * 1024));
    assert_eq!(parse_human_age("2H"), Some(7200));
    assert_eq!(parse_human_age(" 1 d "), Some(86400));
}

#[test]
fn parse_rejects_malformed_input() {
    assert_eq!(parse_human_size(""), None);
    assert_eq!(parse_human_size("   "), None);
    assert_eq!(parse_human_size("MB"), None);
    assert_eq!(parse_human_size("10xb"), None);
    assert_eq!(parse_human_size("1.2.3k"), None);
    assert_eq!(parse_human_size("."), None);
    assert_eq!(parse_human_age(""), None);
    assert_eq!(parse_human_age("1y"), None);
    assert_eq!(parse_human_age("-5d"), None);
}

#[test]
fn fractional_values_truncate_toward_zero() {
    assert_eq!(parse_human_size("1.5k"), Some(1536));
    assert_eq!(parse_human_size("0.1k"), Some(102));
    assert_eq!(parse_human_age("1.5m"), Some(90));
    assert_eq!(parse_human_age("0.5s"), Some(0));
    assert_eq!(parse_human_size("2."), Some(2));
    assert_eq!(parse_human_size(".5k"), Some(512));
}

#[test]
fn huge_values_saturate() {
    assert_eq!(parse_human_size("999999999999999999999999999tb"), Some(u64::MAX));
    assert_eq!(parse_human_age("99999999999999999999999999w"), Some(u64::MAX));
}

#[test]
fn split_num_unit_separates_digits_from_unit() {
    assert_eq!(split_num_unit("100MB"), ("100".to_string(), "MB".to_string()));
    assert_eq!(split_num_unit("1.5w"), ("1.5".to_string(), "w".to_string()));
    assert_eq!(split_num_unit("42"), ("42".to_string(), "".to_string()));
    assert_eq!(split_num_unit("kb"), ("".to_string(), "kb".to_string()));
    assert_eq!(split_num_unit("10 MB"), ("10".to_string(), "MB".to_string()));
}

#[test]
fn hidden_is_lexical_on_base_name() {
    assert!(is_hidden(".env"));
    assert!(is_hidden("dir/.git"));
    assert!(!is_hidden("env"));
    assert!(!is_hidden("dir/file.txt"));
    assert!(!is_hidden(""));
    // `/`, `.` and `..` have no base name of their own
    assert!(!is_hidden("."));
    assert!(!is_hidden(".."));
    assert!(!is_hidden("/"));
    assert!(!is_hidden("a/.."));
}

#[test]
fn file_name_takes_last_component() {
    assert_eq!(file_name("a/b/c.txt"), "c.txt");
    assert_eq!(file_name("c.txt"), "c.txt");
    assert_eq!(file_name("/abs/path/x"), "x");
    assert_eq!(file_name("dir/"), "");
}

#[test]
fn normalize_keeps_the_string() {
    assert_eq!(normalize("a/b/c.txt"), "a/b/c.txt".to_string());
    assert_eq!(normalize(""), "".to_string());
}
