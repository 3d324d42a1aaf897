use grf::domain::error::GrfError;
use grf::domain::model::{ConfigFile, LoadingEntry, LoadingFile, RepoRecord};
use grf::infra::paths::GrfPaths;
use grf::infra::store::StateStore;

fn record(name: &str) -> RepoRecord {
    RepoRecord {
        name: name.to_string(),
        url: format!("https://example.com/{name}.git"),
        path: format!("/cache/{name}"),
        added_at: 10,
        updated_at: 20,
        commit_id: String::from("abcdef0123"),
        branch: None,
    }
}

fn config_with(names: &[&str]) -> ConfigFile {
    let mut c = ConfigFile::default();
    for n in names {
        c.repos.insert(n.to_string(), record(n));
    }
    c
}

fn store() -> StateStore {
    StateStore::new(GrfPaths::from_root(String::from("/state")))
}

fn entry(wd: &str, target: &str, repo: &str) -> LoadingEntry {
    LoadingEntry {
        id: String::new(),
        repo_name: repo.to_string(),
        repo_url: format!("url-{repo}"),
        commit_id: String::from("c1"),
        branch: None,
        subdir: None,
        target_path: target.to_string(),
        loaded_at: 5,
        updated_at: Some(5),
        working_directory: wd.to_string(),
    }
}

#[test]
fn paths_layout() {
    let p = GrfPaths::from_root(String::from("/home/u/.gitreference"));
    assert_eq!(p.repos_root, "/home/u/.gitreference/repos");
    assert_eq!(p.config_path, "/home/u/.gitreference/config.v2.json");
    assert_eq!(p.loading_path, "/home/u/.gitreference/loading.v2.json");
    assert_eq!(GrfPaths::workspace_root("/w"), "/w/.gitreference");
    assert_eq!(GrfPaths::workspace_root("/w/"), "/w/.gitreference");
}

#[test]
fn state_root_from_override_or_home() {
    let p = GrfPaths::discover_from(Some(String::from("/state")), Some(String::from("/home/u"))).unwrap();
    assert_eq!(p.root, "/state");
    assert_eq!(p.repos_root, "/state/repos");
    let p = GrfPaths::discover_from(None, Some(String::from("/home/u"))).unwrap();
    assert_eq!(p.root, "/home/u/.gitreference");
    assert_eq!(p.config_path, "/home/u/.gitreference/config.v2.json");
    assert!(matches!(GrfPaths::discover_from(None, None), Err(GrfError::HomeDirUnavailable)));
}

#[test]
fn resolve_by_key_then_by_name() {
    let c = config_with(&["github.com/openai/codex", "github.com/other/tool"]);
    let s = store();
    assert_eq!(s.resolve_repo(&c, "github.com/openai/codex").unwrap().name, "github.com/openai/codex");
    assert_eq!(s.resolve_repo(&c, "codex").unwrap().name, "github.com/openai/codex");
    assert_eq!(s.resolve_repo(&c, "openai/codex").unwrap().name, "github.com/openai/codex");
}

#[test]
fn resolve_unknown_is_not_found() {
    let c = config_with(&["github.com/openai/codex"]);
    match store().resolve_repo(&c, "nothing") {
        Err(GrfError::RepoNotFound { name }) => assert_eq!(name, "nothing"),
        other => panic!("unexpected {:?}", other),
    }
}

#[test]
fn resolve_ambiguous_lists_matches_in_key_order() {
    let c = config_with(&["z.com/a/tool", "a.com/b/tool"]);
    match store().resolve_repo(&c, "tool") {
        Err(GrfError::AmbiguousRepoName { name, matches }) => {
            assert_eq!(name, "tool");
            assert_eq!(matches, vec!["a.com/b/tool", "z.com/a/tool"]);
        }
        other => panic!("unexpected {:?}", other),
    }
}

#[test]
fn upsert_appends_then_updates() {
    let s = store();
    let mut l = LoadingFile::default();
    let first = s.upsert_loading_entry(&mut l, entry("/w", "vendor/ref", "sample"));
    assert_eq!(first.id.len(), 36);
    assert_eq!(l.entries.len(), 1);

    let mut newer = entry("/w", "vendor/ref", "other");
    newer.commit_id = String::from("c2");
    newer.loaded_at = 99;
    newer.updated_at = Some(100);
    let updated = s.upsert_loading_entry(&mut l, newer);
    assert_eq!(l.entries.len(), 1);
    assert_eq!(updated.id, first.id);
    assert_eq!(updated.repo_name, "other");
    assert_eq!(updated.commit_id, "c2");
    assert_eq!(updated.loaded_at, 5);
    assert_eq!(updated.updated_at, Some(100));
    assert_eq!(l.entries[0].commit_id, "c2");
}

#[test]
fn upsert_keeps_given_id_and_separates_workspaces() {
    let s = store();
    let mut l = LoadingFile::default();
    let mut e = entry("/w1", "t", "r");
    e.id = String::from("fixed");
    assert_eq!(s.upsert_loading_entry(&mut l, e).id, "fixed");
    s.upsert_loading_entry(&mut l, entry("/w2", "t", "r"));
    assert_eq!(l.entries.len(), 2);
    // Utf8Path equality ignores a trailing separator.
    s.upsert_loading_entry(&mut l, entry("/w1/", "t", "r2"));
    assert_eq!(l.entries.len(), 2);
    assert_eq!(l.entries[0].repo_name, "r2");
}

#[test]
fn workspace_entries_and_removal() {
    let s = store();
    let mut l = LoadingFile::default();
    l.entries.push(entry("/w", "a", "r1"));
    l.entries.push(entry("/other", "a", "r2"));
    l.entries.push(entry("/w", "b", "r3"));
    let mine: Vec<String> = s
        .loading_entries_for_workspace(&l, "/w")
        .iter()
        .map(|e| e.repo_name.clone())
        .collect();
    assert_eq!(mine, vec!["r1", "r3"]);
    assert!(s.remove_loading_entry(&mut l, "/w", "a"));
    assert_eq!(l.entries.len(), 2);
    assert!(!s.remove_loading_entry(&mut l, "/w", "a"));
    assert_eq!(l.entries[0].repo_name, "r2");
}

#[test]
fn upsert_keeps_targets_distinct_and_appends_last() {
    let s = store();
    let mut l = LoadingFile::default();
    s.upsert_loading_entry(&mut l, entry("/w", "a", "r1"));
    s.upsert_loading_entry(&mut l, entry("/w", "b", "r2"));
    let added = s.upsert_loading_entry(&mut l, entry("/w", "c", "r3"));
    assert_eq!(l.entries.len(), 3);
    assert_eq!(l.entries[2].target_path, "c");
    assert_eq!(l.entries[2].id, added.id);
    assert!(!added.id.is_empty());
    s.upsert_loading_entry(&mut l, entry("/w", "b", "r4"));
    assert_eq!(l.entries.len(), 3);
    let targets: Vec<&str> = l.entries.iter().map(|e| e.target_path.as_str()).collect();
    assert_eq!(targets, vec!["a", "b", "c"]);
    assert_eq!(l.entries[1].repo_name, "r4");
}
