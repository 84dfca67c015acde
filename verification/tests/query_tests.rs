use file_rs::filter::{Filter, Matcher};
use file_rs::find::{apply_presets, build_filter, parse_select_dsl, FindArgs};
use file_rs::pathinfo::PathInfo;

fn args() -> FindArgs {
    FindArgs {
        root: ".".to_string(),
        pattern: None,
        select: None,
        images: false,
        videos: false,
        docs: false,
        older: None,
        newer: None,
        larger: None,
        smaller: None,
    }
}

fn file_info(name: &str, ext: Option<&str>, size: u64, age: u64, hidden: bool) -> PathInfo {
    PathInfo {
        path: format!("/tmp/{}", name),
        file_name: name.to_ascii_lowercase(),
        ext: ext.map(|e| e.to_ascii_lowercase()),
        is_file: true,
        is_dir: false,
        size: Some(size),
        age_secs: Some(age),
        hidden,
    }
}

#[test]
fn dsl_key_value_forms() {
    let f = parse_select_dsl("contains:report prefix=2024_ suffix:.txt ext:md");
    assert_eq!(f.contains, vec!["report".to_string()]);
    assert_eq!(f.prefix, vec!["2024_".to_string()]);
    assert_eq!(f.suffix, vec![".txt".to_string()]);
    assert_eq!(f.exts, vec!["md".to_string()]);
}

#[test]
fn dsl_name_is_alias_of_contains() {
    let f = parse_select_dsl("name:foo contains:bar");
    assert_eq!(f.contains, vec!["foo".to_string(), "bar".to_string()]);
}

#[test]
fn dsl_ext_strips_dot_and_lowercases() {
    let f = parse_select_dsl("ext:.TXT");
    assert_eq!(f.exts, vec!["txt".to_string()]);
}

#[test]
fn dsl_type_and_hidden() {
    let f = parse_select_dsl("type:file");
    assert!(f.ty_file);
    assert!(!f.ty_dir);

    let d = parse_select_dsl("type:dir");
    assert!(!d.ty_file);
    assert!(d.ty_dir);

    let n = parse_select_dsl("type:link");
    assert!(!n.ty_file);
    assert!(!n.ty_dir);

    assert!(parse_select_dsl("hidden:true").include_hidden);
    assert!(parse_select_dsl("hidden:1").include_hidden);
    assert!(parse_select_dsl("hidden:yes").include_hidden);
    assert!(parse_select_dsl("hidden:on").include_hidden);
    assert!(!parse_select_dsl("hidden:false").include_hidden);
    assert!(!parse_select_dsl("hidden:TRUE").include_hidden);
}

#[test]
fn dsl_bounds_tokens() {
    let f = parse_select_dsl("age>1d age<2h size>10MB size<1GB");
    assert_eq!(f.min_age_secs, Some(86400));
    assert_eq!(f.max_age_secs, Some(7200));
    assert_eq!(f.min_size, Some(10 * 1024 * 1024));
    assert_eq!(f.max_size, Some(1024 * 1024 * 1024));
}

#[test]
fn dsl_malformed_bound_is_ignored() {
    let f = parse_select_dsl("age>1d age>nonsense");
    assert_eq!(f.min_age_secs, Some(86400));

    let g = parse_select_dsl("size<zz");
    assert_eq!(g.max_size, None);
}

#[test]
fn dsl_ignores_unknown_and_malformed_tokens() {
    let f = parse_select_dsl("bogus:1 justaword color=red  ");
    assert!(f.contains.is_empty());
    assert!(f.prefix.is_empty());
    assert!(f.suffix.is_empty());
    assert!(f.exts.is_empty());
    assert!(!f.ty_file);
    assert!(!f.ty_dir);
    assert_eq!(f.min_age_secs, None);
    assert_eq!(f.max_age_secs, None);
    assert_eq!(f.min_size, None);
    assert_eq!(f.max_size, None);
    assert!(!f.include_hidden);
}

#[test]
fn presets_add_extension_sets() {
    let mut a = args();
    a.images = true;
    a.docs = true;
    let mut f = Filter::default();
    apply_presets(&mut f, &a);
    assert_eq!(
        f.exts,
        vec!["jpg", "jpeg", "png", "gif", "webp", "pdf", "docx", "txt", "md"]
            .into_iter()
            .map(String::from)
            .collect::<Vec<_>>()
    );
}

#[test]
fn presets_parse_age_and_size_flags() {
    let mut a = args();
    a.older = Some("30d".to_string());
    a.newer = Some("2h".to_string());
    a.larger = Some("100MB".to_string());
    a.smaller = Some("bogus".to_string());
    let mut f = Filter::default();
    apply_presets(&mut f, &a);
    assert_eq!(f.min_age_secs, Some(30 * 86400));
    assert_eq!(f.max_age_secs, Some(7200));
    assert_eq!(f.min_size, Some(100 * 1024 * 1024));
    assert_eq!(f.max_size, None);
}

#[test]
fn pattern_heuristics() {
    let mut glob = args();
    glob.pattern = Some("*.jpg".to_string());
    let mut f = Filter::default();
    apply_presets(&mut f, &glob);
    assert_eq!(f.suffix, vec![".jpg".to_string()]);
    assert!(f.contains.is_empty());

    let mut dotted = args();
    dotted.pattern = Some(".log".to_string());
    let mut g = Filter::default();
    apply_presets(&mut g, &dotted);
    assert_eq!(g.suffix, vec![".log".to_string()]);

    let mut word = args();
    word.pattern = Some("report".to_string());
    let mut h = Filter::default();
    apply_presets(&mut h, &word);
    assert_eq!(h.contains, vec!["report".to_string()]);
    assert!(h.suffix.is_empty());
}

#[test]
fn preset_extensions_are_normalized() {
    let mut a = args();
    a.images = false;
    let mut f = Filter::default();
    f.exts = vec![".TXT".to_string(), "Md".to_string()];
    apply_presets(&mut f, &a);
    assert_eq!(f.exts, vec!["txt".to_string(), "md".to_string()]);
}

#[test]
fn build_filter_merges_select_over_presets() {
    let mut a = args();
    a.images = true;
    a.older = Some("1d".to_string());
    a.select = Some("ext:txt age>2d hidden:true".to_string());
    let f = build_filter(&a);
    // list categories concatenate: preset images first, then the overlay
    assert_eq!(
        f.exts,
        vec!["jpg", "jpeg", "png", "gif", "webp", "txt"]
            .into_iter()
            .map(String::from)
            .collect::<Vec<_>>()
    );
    // the overlay's scalar wins
    assert_eq!(f.min_age_secs, Some(2 * 86400));
    assert!(f.include_hidden);
}

#[test]
fn query_scenario_age_and_size() {
    let f = parse_select_dsl("ext:txt age>2d size<10MB");
    assert_eq!(f.exts, vec!["txt".to_string()]);
    assert_eq!(f.min_age_secs, Some(172800));
    assert_eq!(f.max_size, Some(10485760));

    let three_days_1kb = file_info("notes.txt", Some("txt"), 1024, 3 * 86400, false);
    assert!(f.matches(&three_days_1kb));

    let one_day_1kb = file_info("notes.txt", Some("txt"), 1024, 86400, false);
    assert!(!f.matches(&one_day_1kb));
}

#[test]
fn query_scenario_hidden_file_vs_dir() {
    let f = parse_select_dsl("hidden:true type:file");

    let hidden_file = file_info(".secret", Some("secret"), 1, 1, true);
    assert!(f.matches(&hidden_file));

    let hidden_dir = PathInfo {
        path: "/tmp/.config".to_string(),
        file_name: ".config".to_string(),
        ext: None,
        is_file: false,
        is_dir: true,
        size: None,
        age_secs: Some(1),
        hidden: true,
    };
    assert!(!f.matches(&hidden_dir));
}
