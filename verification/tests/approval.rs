use vectorguard::approval::{
    approved_file_name, is_expired, is_reapable_file, make_id, make_id_at, pending_file_name,
    sanitize, sort_pending, ApprovalStore, PendingItem,
};
use vectorguard::rules::{Rule, RuleAction};

fn item(name: &str, created_at: u128) -> PendingItem {
    PendingItem {
        id: format!("{}-{}", created_at, name),
        path: format!("/tmp/{}.toml", name),
        rule: Rule {
            name: name.into(),
            action: RuleAction::Alert,
            description: Some(format!("test rule {}", name)),
            match_process: vec!["bash".into()],
            match_path_prefix: vec![],
            match_exec_path: vec![],
            match_port: vec![],
            match_uid: None,
        },
        created_at,
    }
}

#[test]
fn sanitize_replaces_unsafe_chars() {
    assert_eq!(sanitize("foo/bar baz"), "foo-bar-baz");
    assert_eq!(sanitize("ok_name-1"), "ok_name-1");
    assert_eq!(sanitize(""), "rule");
}

#[test]
fn sanitize_replaces_each_non_ascii_char_once() {
    assert_eq!(sanitize("日本"), "--");
    assert_eq!(sanitize("a.b"), "a-b");
}

#[test]
fn make_id_at_joins_time_and_name() {
    assert_eq!(make_id_at(1700000000123456789, "test-one"), "1700000000123456789-test-one");
    assert_eq!(make_id_at(0, ""), "0-rule");
    assert_eq!(make_id_at(42, "a b"), "42-a-b");
}

#[test]
fn make_id_ends_with_sanitized_name() {
    let id = make_id("test one");
    assert!(id.ends_with("-test-one"));
    let digits = &id[..id.len() - "-test-one".len()];
    assert!(!digits.is_empty());
    assert!(digits.chars().all(|c| c.is_ascii_digit()));
}

#[test]
fn file_names_for_pending_and_approved() {
    assert_eq!(pending_file_name("12-x"), "12-x.toml");
    assert_eq!(approved_file_name("12-x"), "ai-approved-12-x.toml");
}

#[test]
fn reaper_only_takes_approved_files() {
    assert!(is_reapable_file("ai-approved-12-x.toml"));
    assert!(is_reapable_file(&approved_file_name("anything")));
    assert!(!is_reapable_file("default.toml"));
    assert!(!is_reapable_file("ai-approved-12-x.toml.bak"));
    assert!(!is_reapable_file("ai-approved-"));
}

#[test]
fn expiry_by_age() {
    // ttl 0: anything not in the future has expired
    assert!(is_expired(100, 100, 0));
    assert!(is_expired(100, 40, 60));
    assert!(!is_expired(100, 41, 60));
    // a modification time in the future never expires
    assert!(!is_expired(100, 200, 0));
}

#[test]
fn store_keeps_its_directories() {
    let s = ApprovalStore::new("/tmp/p".to_string(), "/tmp/a".to_string());
    assert_eq!(s.pending_dir, "/tmp/p");
    assert_eq!(s.approved_dir, "/tmp/a");
}

#[test]
fn pending_items_are_listed_oldest_first() {
    let items = vec![item("c", 30), item("a", 10), item("b1", 20), item("b2", 20), item("z", 5)];
    let sorted = sort_pending(items);
    let names: Vec<&str> = sorted.iter().map(|i| i.rule.name.as_str()).collect();
    assert_eq!(names, vec!["z", "a", "b1", "b2", "c"]);
    assert!(sort_pending(vec![]).is_empty());
}
