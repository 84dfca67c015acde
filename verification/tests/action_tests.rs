use file_rs::cmdargs::{dest_path, rm_decision, ActionSpec, RmAction};

#[test]
fn parse_each_action_kind() {
    match ActionSpec::parse("mv:to=dst") {
        Ok(ActionSpec::Mv { to }) => assert_eq!(to, "dst"),
        other => panic!("unexpected result: {:?}", other.is_ok()),
    }
    match ActionSpec::parse("copy:to=backup/") {
        Ok(ActionSpec::Copy { to }) => assert_eq!(to, "backup/"),
        _ => panic!("copy did not parse"),
    }
    match ActionSpec::parse("compress:dst=archive.tar.zst") {
        Ok(ActionSpec::Compress { dst }) => assert_eq!(dst, "archive.tar.zst"),
        _ => panic!("compress did not parse"),
    }
    match ActionSpec::parse("rm:trash=false") {
        Ok(ActionSpec::Rm { trash }) => assert!(!trash),
        _ => panic!("rm did not parse"),
    }
}

#[test]
fn parse_later_fragment_wins() {
    match ActionSpec::parse("mv:to=a,to=b") {
        Ok(ActionSpec::Mv { to }) => assert_eq!(to, "b"),
        _ => panic!("mv did not parse"),
    }
}

#[test]
fn parse_errors_name_the_offence() {
    assert_eq!(ActionSpec::parse("mv").unwrap_err(), "expected kind:kv syntax");
    assert_eq!(ActionSpec::parse("mv:").unwrap_err(), "expected key=value");
    assert_eq!(ActionSpec::parse("mv:to").unwrap_err(), "expected key=value");
    assert_eq!(
        ActionSpec::parse("mv:dst=x").unwrap_err(),
        "unsupported key 'dst' for kind 'mv'"
    );
    assert_eq!(ActionSpec::parse("rm:trash=maybe").unwrap_err(), "trash expects true/false");
    assert_eq!(
        ActionSpec::parse("zip:a=b").unwrap_err(),
        "unsupported key 'a' for kind 'zip'"
    );
}

#[test]
fn rm_trash_defaults_to_true() {
    match ActionSpec::parse("rm:trash=1") {
        Ok(ActionSpec::Rm { trash }) => assert!(trash),
        _ => panic!("rm did not parse"),
    }
}

#[test]
fn next_path_rebases_only_moves() {
    let mv = ActionSpec::Mv { to: "dst".to_string() };
    assert_eq!(mv.next_path("a/b.jpg"), "dst/b.jpg");

    let cp = ActionSpec::Copy { to: "dst".to_string() };
    assert_eq!(cp.next_path("a/b.jpg"), "a/b.jpg");

    let rm = ActionSpec::Rm { trash: true };
    assert_eq!(rm.next_path("a/b.jpg"), "a/b.jpg");
}

#[test]
fn dest_path_joins_directory_and_base_name() {
    assert_eq!(dest_path("out", "nested/c.jpg"), "out/c.jpg");
    assert_eq!(dest_path("out", "plain.txt"), "out/plain.txt");
}

#[test]
fn rm_decision_follows_kind_and_dry_run() {
    assert!(matches!(rm_decision(true, true, false), RmAction::Skip));
    assert!(matches!(rm_decision(true, false, false), RmAction::Skip));
    assert!(matches!(rm_decision(false, true, false), RmAction::RemoveFile));
    assert!(matches!(rm_decision(false, false, true), RmAction::RemoveDir));
    assert!(matches!(rm_decision(false, false, false), RmAction::Refuse));
}
