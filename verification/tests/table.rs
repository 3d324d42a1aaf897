use grf::domain::model::{ConfigDefaults, ConfigFile, LoadingFile, RepoRecord, RepoTable, STATE_VERSION};

fn record(name: &str) -> RepoRecord {
    RepoRecord {
        name: name.to_string(),
        url: format!("https://example.com/{name}.git"),
        path: format!("/cache/{name}"),
        added_at: 1,
        updated_at: 2,
        commit_id: String::from("0123456789abcdef"),
        branch: Some(String::from("main")),
    }
}

#[test]
fn table_keeps_key_order() {
    let mut t = RepoTable::new();
    t.insert(String::from("b"), record("b"));
    t.insert(String::from("a"), record("a"));
    t.insert(String::from("c"), record("c"));
    t.insert(String::from("ab"), record("ab"));
    assert_eq!(t.keys(), vec!["a", "ab", "b", "c"]);
    assert_eq!(t.len(), 4);
}

#[test]
fn table_insert_replaces() {
    let mut t = RepoTable::new();
    t.insert(String::from("k"), record("one"));
    t.insert(String::from("k"), record("two"));
    assert_eq!(t.len(), 1);
    assert_eq!(t.get("k").unwrap().name, "two");
    assert!(t.contains_key("k"));
    assert!(!t.contains_key("K"));
}

#[test]
fn table_remove_and_clear() {
    let mut t = RepoTable::new();
    t.insert(String::from("x"), record("x"));
    t.insert(String::from("y"), record("y"));
    assert_eq!(t.remove("x").unwrap().name, "x");
    assert!(t.remove("x").is_none());
    assert!(t.get("x").is_none());
    assert_eq!(t.values().len(), 1);
    t.clear();
    assert!(t.is_empty());
}

#[test]
fn table_orders_by_unicode_scalar() {
    let mut t = RepoTable::new();
    t.insert(String::from("é"), record("e-acute"));
    t.insert(String::from("z"), record("z"));
    t.insert(String::from("Z"), record("Z"));
    assert_eq!(t.keys(), vec!["Z", "z", "é"]);
}

#[test]
fn defaults() {
    let d = ConfigDefaults::default();
    assert_eq!(d.default_branch, "main");
    assert!(d.shallow_clone);
    assert_eq!(d.shallow_depth, 1);
    let c = ConfigFile::default();
    assert_eq!(c.version, STATE_VERSION);
    assert!(c.repos.is_empty());
    let l = LoadingFile::default();
    assert_eq!(l.version, "2.0.0");
    assert!(l.entries.is_empty());
}
