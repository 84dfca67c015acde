use file_rs::filter::{Filter, Matcher};
use file_rs::find::{build_filter, FindArgs};
use file_rs::pathinfo::{FsMeta, PathInfo};

fn file_meta(len: u64, modified: Option<u64>) -> Option<FsMeta> {
    Some(FsMeta { is_file: true, is_dir: false, len, modified })
}

fn dir_meta() -> Option<FsMeta> {
    Some(FsMeta { is_file: false, is_dir: true, len: 0, modified: Some(0) })
}

#[test]
fn snapshot_normalizes_name_and_extension() {
    let info = PathInfo::from_fs("Dir/Report.TXT", &file_meta(10, Some(50)), 100).unwrap();
    assert_eq!(info.path, "Dir/Report.TXT".to_string());
    assert_eq!(info.file_name, "report.txt".to_string());
    assert_eq!(info.ext, Some("txt".to_string()));
    assert!(info.is_file);
    assert!(!info.is_dir);
    assert_eq!(info.size, Some(10));
    assert_eq!(info.age_secs, Some(50));
    assert!(!info.hidden);
}

#[test]
fn snapshot_edge_cases() {
    // no metadata: no snapshot
    assert!(PathInfo::from_fs("x", &None, 0).is_none());
    // dotfile: hidden, and the leading dot names no extension
    let dot = PathInfo::from_fs("a/.gitignore", &file_meta(1, Some(0)), 0).unwrap();
    assert!(dot.hidden);
    assert_eq!(dot.ext, None);
    // hidden file with a real extension
    let hidden = PathInfo::from_fs(".hidden.jpg", &file_meta(1, Some(0)), 0).unwrap();
    assert!(hidden.hidden);
    assert_eq!(hidden.ext, Some("jpg".to_string()));
    // a trailing dot names an empty extension
    let trailing = PathInfo::from_fs("foo.", &file_meta(1, Some(0)), 0).unwrap();
    assert_eq!(trailing.ext, Some("".to_string()));
    // `.` and `..` have no base name: empty name, no extension, not hidden
    let cur = PathInfo::from_fs(".", &dir_meta(), 0).unwrap();
    assert_eq!(cur.file_name, "".to_string());
    assert_eq!(cur.ext, None);
    assert!(!cur.hidden);
    let parent = PathInfo::from_fs("a/..", &dir_meta(), 0).unwrap();
    assert_eq!(parent.file_name, "".to_string());
    assert_eq!(parent.ext, None);
    assert!(!parent.hidden);
    // directory: no size
    let d = PathInfo::from_fs("some/dir", &dir_meta(), 5).unwrap();
    assert_eq!(d.size, None);
    assert!(d.is_dir);
    // modification time in the future: no age
    let future = PathInfo::from_fs("f", &file_meta(1, Some(200)), 100).unwrap();
    assert_eq!(future.age_secs, None);
    // unreadable modification time: no age
    let unknown = PathInfo::from_fs("f", &file_meta(1, None), 100).unwrap();
    assert_eq!(unknown.age_secs, None);
}

#[test]
fn from_entry_agrees_with_from_fs() {
    let a = PathInfo::from_entry("a/b.PNG", &file_meta(7, Some(3)), 10).unwrap();
    let b = PathInfo::from_fs("a/b.PNG", &file_meta(7, Some(3)), 10).unwrap();
    assert_eq!(a.file_name, b.file_name);
    assert_eq!(a.ext, b.ext);
    assert_eq!(a.size, b.size);
    assert_eq!(a.age_secs, b.age_secs);
    assert_eq!(a.hidden, b.hidden);
}

#[test]
fn images_preset_excludes_hidden_entries() {
    let mut args = FindArgs {
        root: ".".to_string(),
        pattern: None,
        select: None,
        images: true,
        videos: false,
        docs: false,
        older: None,
        newer: None,
        larger: None,
        smaller: None,
    };
    args.images = true;
    let f = build_filter(&args);

    let now = 1000;
    let entries = ["a.jpg", "b.jpg", "nested/c.jpg", ".hidden.jpg"];
    let mut accepted: Vec<String> = Vec::new();
    for path in entries {
        if let Some(info) = PathInfo::from_fs(path, &file_meta(10, Some(500)), now) {
            if f.matches(&info) {
                accepted.push(info.path);
            }
        }
    }
    assert_eq!(accepted, vec!["a.jpg", "b.jpg", "nested/c.jpg"]);
}

#[test]
fn files_only_tracks_the_file_flag() {
    let mut f = Filter::default();
    f.ty_file = true;
    let file = PathInfo::from_fs("x.txt", &file_meta(1, Some(0)), 0).unwrap();
    let dir = PathInfo::from_fs("x", &dir_meta(), 0).unwrap();
    assert!(f.matches(&file));
    assert!(!f.matches(&dir));
}

#[test]
fn uppercase_extension_matches_lowercase_term() {
    let mut f = Filter::default();
    f.exts = vec!["txt".to_string()];
    let shouting = PathInfo::from_fs("NOTES.TXT", &file_meta(1, Some(0)), 0).unwrap();
    assert_eq!(shouting.ext, Some("txt".to_string()));
    assert!(f.matches(&shouting));
}

#[test]
fn contains_terms_are_lowercased_at_evaluation() {
    let mut f = Filter::default();
    f.contains = vec!["REPORT".to_string()];
    let info = PathInfo::from_fs("q3_report.txt", &file_meta(1, Some(0)), 0).unwrap();
    assert!(f.matches(&info));
}
