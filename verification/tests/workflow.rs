use grf::app::add::{build_repo_storage_path, check_new_repository, plan_add, record_new_repository};
use grf::app::clean::{plan_clean, CleanPlan};
use grf::app::list::{list_output, ListOutput};
use grf::app::load::{
    branch_to_switch, checked_source_path, load_source_given, LoadSource, determine_source_path, determine_target_path, dir_gitignore_entry,
    load_gitignore_entries, loading_entry_for, relative_target_path, source_path_for,
};
use grf::app::unload::{
    gitignore_entry_to_clean, match_loaded_entries, plan_unload, pruned_line, removed_line,
    unload_prompt, UnloadPlan,
};
use grf::app::update::{
    check_line, empty_sync_report, entry_source_path, require_loaded_references, in_sync_line, missing_subdir_error, needs_sync,
    nothing_to_sync_line, plan_sync_entry, record_refreshed_repository, refresh_loading_entry,
    refresh_loading_entry_at,
    repo_for_entry, status_line, synced_line, up_to_date_line, update_targets, updated_line,
    SyncStep,
};
use grf::cli::args::{AddArgs, CleanArgs, Cli, Commands, ListArgs, UnloadArgs};
use grf::domain::error::GrfError;
use grf::domain::git_url::ParsedGitUrl;
use grf::domain::model::{ConfigFile, LoadingEntry, LoadingFile, RepoRecord};
use grf::infra::fs::{copy_destination, is_excluded};
use grf::infra::path::join;
use grf::infra::paths::GrfPaths;
use grf::infra::store::StateStore;
use grf::ui::output::{
    loading_table_header, loading_table_row, repo_table_header, repo_table_row, short_commit,
};

fn record(name: &str) -> RepoRecord {
    RepoRecord {
        name: name.to_string(),
        url: format!("https://example.com/{name}.git"),
        path: format!("/cache/{name}"),
        added_at: 10,
        updated_at: 20,
        commit_id: String::from("0123456789abcdef"),
        branch: Some(String::from("main")),
    }
}

fn entry(target: &str, repo: &str) -> LoadingEntry {
    LoadingEntry {
        id: String::from("id"),
        repo_name: repo.to_string(),
        repo_url: String::from("u"),
        commit_id: String::from("1111111222"),
        branch: None,
        subdir: None,
        target_path: target.to_string(),
        loaded_at: 1,
        updated_at: None,
        working_directory: String::from("/w"),
    }
}

fn store() -> StateStore {
    StateStore::new(GrfPaths::from_root(String::from("/state")))
}

#[test]
fn add_paths_and_conflicts() {
    let paths = GrfPaths::from_root(String::from("/state"));
    let parsed = ParsedGitUrl {
        host: String::from("127.0.0.1"),
        owner: String::from("team"),
        repo: String::from("repo"),
        port: Some(3000),
    };
    assert_eq!(build_repo_storage_path(&paths, &parsed), "/state/repos/127.0.0.1_3000/team/repo");

    let mut config = ConfigFile::default();
    let (name, path) = plan_add(&paths, &config, "http://x", &parsed, None).unwrap();
    assert_eq!(name, "127.0.0.1_3000/team/repo");
    assert_eq!(path, "/state/repos/127.0.0.1_3000/team/repo");
    let (name, _) = plan_add(&paths, &config, "http://x", &parsed, Some(String::from("sample"))).unwrap();
    assert_eq!(name, "sample");

    config.repos.insert(String::from("sample"), record("sample"));
    match check_new_repository(&config, "sample", "other", "/elsewhere") {
        Err(GrfError::RepoAlreadyExists { name }) => assert_eq!(name, "sample"),
        other => panic!("unexpected {:?}", other),
    }
    match check_new_repository(&config, "new", "https://example.com/sample.git", "/elsewhere") {
        Err(GrfError::RepoAlreadyExists { name }) => assert_eq!(name, "sample"),
        other => panic!("unexpected {:?}", other),
    }
    match check_new_repository(&config, "new", "u2", "/cache/sample/") {
        Err(GrfError::RepoAlreadyExists { name }) => assert_eq!(name, "sample"),
        other => panic!("unexpected {:?}", other),
    }
    assert!(check_new_repository(&config, "new", "u2", "/cache/new").is_ok());
}

#[test]
fn add_args_clone_options() {
    let args = AddArgs {
        url: String::from("u"),
        name: None,
        branch: Some(String::from("b")),
        shallow: false,
        no_shallow: true,
        depth: Some(3),
    };
    let o = args.clone_options();
    assert!(!o.shallow);
    assert_eq!(o.branch.as_deref(), Some("b"));
    assert_eq!(o.depth, Some(3));
}

#[test]
fn load_paths() {
    assert_eq!(source_path_for("/cache/r", Some("docs")), "/cache/r/docs");
    assert_eq!(source_path_for("/cache/r", None), "/cache/r");
    match determine_source_path("/definitely/not/here", Some("sub")) {
        Err(GrfError::MissingSubdir { repo, subdir }) => {
            assert_eq!(repo, "/definitely/not/here");
            assert_eq!(subdir, "sub");
        }
        other => panic!("unexpected {:?}", other),
    }
    assert_eq!(determine_source_path("/", None).unwrap(), "/");
    assert_eq!(determine_target_path("/w", "sample", Some("vendor/reference")), "/w/vendor/reference");
    assert_eq!(determine_target_path("/w", "a/b", None), "/w/.gitreference/a/b");
    assert_eq!(determine_target_path("/w", "a", Some("/abs")), "/abs");
    assert_eq!(relative_target_path("/w", "/w/vendor/reference").unwrap(), "vendor/reference");
    match relative_target_path("/w", "/abs") {
        Err(GrfError::InvalidArgument { message }) => assert_eq!(message, "目标路径不在当前工作区内: /abs"),
        other => panic!("unexpected {:?}", other),
    }
    assert_eq!(join("", "x"), "x");
    assert_eq!(join("a", ""), "a/");
}

#[test]
fn load_gitignore_decisions() {
    assert_eq!(dir_gitignore_entry("vendor/reference"), "vendor/reference/");
    assert_eq!(dir_gitignore_entry("vendor/"), "vendor/");
    assert_eq!(load_gitignore_entries(true, "x"), Vec::<String>::new());
    assert_eq!(load_gitignore_entries(false, ".gitreference/a"), vec![".gitreference/"]);
    assert_eq!(load_gitignore_entries(false, "vendor/reference"), vec![".gitreference/", "vendor/reference/"]);
    assert_eq!(gitignore_entry_to_clean(".gitreference/a"), None);
    assert_eq!(gitignore_entry_to_clean("vendor/reference").as_deref(), Some("vendor/reference/"));
}

#[test]
fn load_branch_and_entry() {
    let main = Some(String::from("main"));
    let dev = Some(String::from("dev"));
    assert_eq!(branch_to_switch(&main, &main), None);
    assert_eq!(branch_to_switch(&dev, &main).as_deref(), Some("dev"));
    assert_eq!(branch_to_switch(&dev, &None).as_deref(), Some("dev"));
    assert_eq!(branch_to_switch(&None, &main), None);

    let e = loading_entry_for(&record("sample"), &Some(String::from("docs")), "vendor/ref", 77, "/w");
    assert_eq!(e.id, "");
    assert_eq!(e.repo_name, "sample");
    assert_eq!(e.subdir.as_deref(), Some("docs"));
    assert_eq!(e.target_path, "vendor/ref");
    assert_eq!(e.loaded_at, 77);
    assert_eq!(e.updated_at, Some(77));
    assert_eq!(e.working_directory, "/w");
    assert_eq!(e.branch.as_deref(), Some("main"));
}

#[test]
fn unload_matching() {
    let es = vec![entry("vendor/reference", "sample"), entry(".gitreference/github.com/o/codex", "github.com/o/codex")];
    assert_eq!(match_loaded_entries(&es, "sample").unwrap().len(), 1);
    assert_eq!(match_loaded_entries(&es, "vendor\\reference").unwrap()[0].repo_name, "sample");
    assert_eq!(match_loaded_entries(&es, "reference").unwrap()[0].repo_name, "sample");
    assert_eq!(match_loaded_entries(&es, "codex").unwrap()[0].repo_name, "github.com/o/codex");
    match match_loaded_entries(&es, "zzz") {
        Err(GrfError::RepoNotFound { name }) => assert_eq!(name, "zzz"),
        other => panic!("unexpected {:?}", other),
    }
}

fn unload_args() -> UnloadArgs {
    UnloadArgs { name: None, all: false, force: false, list: false, keep_empty: false, clean_empty: false, verbose: false }
}

#[test]
fn unload_plans() {
    let es = vec![entry("a", "r1"), entry("b", "r2")];
    let mut args = unload_args();
    args.list = true;
    assert!(matches!(plan_unload(&args, &es), Ok(UnloadPlan::List)));
    let mut args = unload_args();
    args.clean_empty = true;
    assert!(matches!(plan_unload(&args, &es), Ok(UnloadPlan::CleanEmpty)));
    let args = unload_args();
    assert!(matches!(plan_unload(&args, &[]), Err(GrfError::NoLoadedReferences)));
    match plan_unload(&args, &es) {
        Err(GrfError::InvalidArgument { message }) => assert_eq!(message, "unload 需要指定仓库名称，或使用 --all / --list。"),
        other => panic!("unexpected {:?}", other),
    }
    let mut args = unload_args();
    args.all = true;
    match plan_unload(&args, &es) {
        Ok(UnloadPlan::Remove { selected, prompt }) => {
            assert_eq!(selected.len(), 2);
            assert_eq!(prompt.as_deref(), Some("Remove all loaded references from the current workspace?"));
        }
        other => panic!("unexpected {:?}", other),
    }
    let mut args = unload_args();
    args.name = Some(String::from("r2"));
    args.force = true;
    match plan_unload(&args, &es) {
        Ok(UnloadPlan::Remove { selected, prompt }) => {
            assert_eq!(selected[0].target_path, "b");
            assert_eq!(prompt, None);
        }
        other => panic!("unexpected {:?}", other),
    }
    assert_eq!(unload_prompt(false, 12), "Remove 12 loaded reference(s)?");
    assert_eq!(removed_line("/w/a"), "Removed /w/a");
    assert_eq!(pruned_line(3), "Removed 3 empty directories.");
}

#[test]
fn update_lines() {
    assert_eq!(check_line("r", true), "r: updates available");
    assert_eq!(check_line("r", false), "r: up-to-date");
    assert_eq!(updated_line("r", "0123456789"), "r: updated to 0123456");
    assert_eq!(up_to_date_line("r"), "r: already up-to-date");
    assert_eq!(in_sync_line("r"), "r: already in sync");
    assert_eq!(synced_line("r", "abc"), "r: synced to abc");
    assert_eq!(nothing_to_sync_line(), "No loaded references need syncing.");
    let e = entry("vendor/reference", "sample");
    assert_eq!(
        status_line(&e, "1111111222", true),
        "sample -> vendor/reference | cache 1111111 | loaded 1111111 | in sync"
    );
    assert_eq!(
        status_line(&e, "9999999", true),
        "sample -> vendor/reference | cache 9999999 | loaded 1111111 | needs sync"
    );
    assert_eq!(
        status_line(&e, "1111111222", false),
        "sample -> vendor/reference | cache 1111111 | loaded 1111111 | needs sync"
    );
    assert!(needs_sync(true, true, "a", "a"));
    assert!(!needs_sync(false, true, "a", "a"));
}

#[test]
fn update_repo_lookups() {
    let mut config = ConfigFile::default();
    config.repos.insert(String::from("sample"), record("sample"));
    config.repos.insert(String::from("another"), record("another"));
    let s = store();
    assert_eq!(update_targets(&s, &config, None).unwrap(), vec!["another", "sample"]);
    assert_eq!(update_targets(&s, &config, Some("sample")).unwrap(), vec!["sample"]);
    assert!(update_targets(&s, &config, Some("nope")).is_err());

    let mut e = entry("t", "sample");
    assert_eq!(repo_for_entry(&config, &e).unwrap().name, "sample");
    e.subdir = Some(String::from("docs"));
    assert_eq!(entry_source_path(repo_for_entry(&config, &e).unwrap(), &e), "/cache/sample/docs");
    match missing_subdir_error(&record("sample"), &e) {
        GrfError::MissingSubdir { repo, subdir } => {
            assert_eq!(repo, "sample");
            assert_eq!(subdir, "docs");
        }
        other => panic!("unexpected {:?}", other),
    }
    e.repo_name = String::from("gone");
    assert!(matches!(repo_for_entry(&config, &e), Err(GrfError::RepoNotFound { .. })));
}

#[test]
fn refresh_entry_sets_commit() {
    let mut l = LoadingFile::default();
    l.entries.push(entry("a", "r1"));
    l.entries.push(entry("b", "r2"));
    refresh_loading_entry(&mut l, "/w", "b", "newcommit");
    assert_eq!(l.entries[1].commit_id, "newcommit");
    assert!(l.entries[1].updated_at.is_some());
    assert_eq!(l.entries[0].commit_id, "1111111222");
    assert_eq!(l.entries[0].updated_at, None);
    refresh_loading_entry(&mut l, "/elsewhere", "a", "x");
    assert_eq!(l.entries[0].commit_id, "1111111222");
}

#[test]
fn clean_plans() {
    let s = store();
    let empty = ConfigFile::default();
    let args = CleanArgs { name: None, all: false, force: false };
    assert!(matches!(plan_clean(&s, &empty, &args), Ok(CleanPlan::NothingCached)));

    let mut config = ConfigFile::default();
    config.repos.insert(String::from("b"), record("b"));
    config.repos.insert(String::from("a"), record("a"));
    match plan_clean(&s, &config, &CleanArgs { name: None, all: true, force: false }) {
        Ok(CleanPlan::RemoveAll { paths, prompt }) => {
            assert_eq!(paths, vec!["/cache/a", "/cache/b"]);
            assert_eq!(prompt.as_deref(), Some("Remove all cached repositories?"));
        }
        other => panic!("unexpected {:?}", other),
    }
    match plan_clean(&s, &config, &args) {
        Err(GrfError::InvalidArgument { message }) => assert_eq!(message, "clean 需要指定仓库名称，或使用 --all。"),
        other => panic!("unexpected {:?}", other),
    }
    match plan_clean(&s, &config, &CleanArgs { name: Some(String::from("a")), all: false, force: false }) {
        Ok(CleanPlan::RemoveOne { repo, prompt }) => {
            assert_eq!(repo.name, "a");
            assert_eq!(prompt.as_deref(), Some("Remove cached repository `a`?"));
        }
        other => panic!("unexpected {:?}", other),
    }
}

#[test]
fn list_outputs() {
    let args = ListArgs { json: true, load: false, verbose: false };
    assert!(matches!(list_output(&args, 0), ListOutput::Json));
    let args = ListArgs { json: false, load: true, verbose: false };
    match list_output(&args, 0) {
        ListOutput::Message(m) => assert_eq!(m, "No loaded references found in the current workspace."),
        other => panic!("unexpected {:?}", other),
    }
    let args = ListArgs { json: false, load: false, verbose: true };
    match list_output(&args, 0) {
        ListOutput::Message(m) => assert_eq!(m, "No cached repositories found."),
        other => panic!("unexpected {:?}", other),
    }
    assert!(matches!(list_output(&args, 2), ListOutput::Table { verbose: true }));
}

#[test]
fn table_cells() {
    assert_eq!(short_commit("0123456789abcdef"), "0123456");
    assert_eq!(short_commit("abc"), "abc");
    assert_eq!(short_commit("ééééé"), "ééééé");
    assert_eq!(short_commit("a€€x"), "a€€");
    assert_eq!(repo_table_header(false), vec!["Name", "Branch", "Commit"]);
    assert_eq!(repo_table_header(true), vec!["Name", "Branch", "Commit", "Path", "Updated"]);
    let mut r = record("x");
    assert_eq!(repo_table_row(&r, false), vec!["x", "main", "0123456"]);
    r.branch = None;
    assert_eq!(repo_table_row(&r, true), vec!["x", "-", "0123456", "/cache/x"]);
    assert_eq!(loading_table_header(true), vec!["Repo", "Target", "Branch", "Commit", "Loaded At"]);
    assert_eq!(loading_table_header(false), vec!["Repo", "Target", "Commit"]);
    let e = entry("t", "r");
    assert_eq!(loading_table_row(&e, true), vec!["r", "t", "-", "1111111"]);
    assert_eq!(loading_table_row(&e, false), vec!["r", "t", "1111111"]);
}

#[test]
fn copy_decisions() {
    let ex = [".git", "meta.json"];
    assert!(is_excluded(".git", &ex));
    assert!(!is_excluded(".github", &ex));
    assert_eq!(copy_destination("/src", "/dst", "/src/a/b.txt").unwrap(), "/dst/a/b.txt");
    match copy_destination("/src", "/dst", "/other/a") {
        Err(GrfError::InvalidArgument { message }) => assert_eq!(message, "无法计算相对路径: /other/a"),
        other => panic!("unexpected {:?}", other),
    }
}

#[test]
fn sync_entry_plans() {
    let repo = record("sample");
    let mut e = entry(".gitreference/sample", "sample");
    e.subdir = Some(String::from("docs"));
    match plan_sync_entry(&repo, &e, "/w", "1111111222", true, false) {
        SyncStep::InSync { line } => assert_eq!(line, "sample: already in sync"),
        other => panic!("unexpected {other:?}"),
    }
    match plan_sync_entry(&repo, &e, "/w", "1111111222", true, true) {
        SyncStep::Copy { source, target, line } => {
            assert_eq!(source, "/cache/sample/docs");
            assert_eq!(target, "/w/.gitreference/sample");
            assert_eq!(line, "sample: synced to 1111111");
        }
        other => panic!("unexpected {other:?}"),
    }
    match plan_sync_entry(&repo, &e, "/w", "abcdef0123", true, false) {
        SyncStep::Copy { line, .. } => assert_eq!(line, "sample: synced to abcdef0"),
        other => panic!("unexpected {other:?}"),
    }
    match plan_sync_entry(&repo, &e, "/w", "1111111222", false, false) {
        SyncStep::Copy { target, .. } => assert_eq!(target, "/w/.gitreference/sample"),
        other => panic!("unexpected {other:?}"),
    }
}

#[test]
fn recorded_repositories_are_stored() {
    let mut config = ConfigFile::default();
    let rec = record_new_repository(
        &mut config,
        String::from("sample"),
        "https://example.com/sample.git",
        String::from("/cache/sample"),
        String::from("abc"),
        Some(String::from("main")),
        42,
    );
    assert_eq!(rec.added_at, 42);
    assert_eq!(rec.updated_at, 42);
    assert_eq!(rec.url, "https://example.com/sample.git");
    let stored = config.repos.get("sample").unwrap();
    assert_eq!(stored.commit_id, "abc");
    assert_eq!(stored.path, "/cache/sample");
    assert_eq!(store().resolve_repo(&config, "sample").unwrap().commit_id, "abc");

    let refreshed = record_refreshed_repository(
        &mut config,
        &rec,
        String::from("def"),
        Some(String::from("dev")),
        99,
    );
    assert_eq!(refreshed.added_at, 42);
    assert_eq!(refreshed.updated_at, 99);
    assert_eq!(config.repos.len(), 1);
    let stored = config.repos.get("sample").unwrap();
    assert_eq!(stored.commit_id, "def");
    assert_eq!(stored.branch.as_deref(), Some("dev"));
    assert_eq!(stored.url, "https://example.com/sample.git");
}

#[test]
fn source_path_given_disk_answer() {
    assert_eq!(checked_source_path("/cache/r", Some("docs"), true).unwrap(), "/cache/r/docs");
    assert_eq!(checked_source_path("/cache/r", None, true).unwrap(), "/cache/r");
    match checked_source_path("/cache/r", None, false) {
        Err(GrfError::MissingSubdir { repo, subdir }) => {
            assert_eq!(repo, "/cache/r");
            assert_eq!(subdir, "");
        }
        other => panic!("unexpected {:?}", other),
    }
}

#[test]
fn refreshed_reference_reports_in_sync() {
    let mut l = LoadingFile::default();
    l.entries.push(entry("vendor/reference", "sample"));
    assert_eq!(
        status_line(&l.entries[0], "abcdef0123", true),
        "sample -> vendor/reference | cache abcdef0 | loaded 1111111 | needs sync"
    );
    refresh_loading_entry(&mut l, "/w", "vendor/reference", "abcdef0123");
    assert_eq!(
        status_line(&l.entries[0], "abcdef0123", true),
        "sample -> vendor/reference | cache abcdef0 | loaded abcdef0 | in sync"
    );
    assert!(!needs_sync(false, true, &l.entries[0].commit_id, "abcdef0123"));
}

#[test]
fn invocation_carries_command_options() {
    let cli = Cli {
        command: Commands::Clean(CleanArgs { name: Some(String::from("sample")), all: false, force: true }),
    };
    match cli.command {
        Commands::Clean(args) => {
            assert_eq!(args.name.as_deref(), Some("sample"));
            assert!(args.force);
        }
        other => panic!("unexpected {other:?}"),
    }
}

#[test]
fn empty_workspace_answers() {
    let none: Vec<&LoadingEntry> = Vec::new();
    assert!(matches!(require_loaded_references(&none), Err(GrfError::NoLoadedReferences)));
    let e = entry("a", "r");
    let some = vec![&e];
    assert!(require_loaded_references(&some).is_ok());
    assert_eq!(empty_sync_report(&Vec::new()), Some(vec![String::from("No loaded references need syncing.")]));
    assert_eq!(empty_sync_report(&vec![entry("a", "r")]), None);
}

#[test]
fn load_source_decisions() {
    let s = store();
    let mut config = ConfigFile::default();
    config.repos.insert(String::from("github.com/a/sample"), record("github.com/a/sample"));
    assert!(matches!(load_source_given(&s, &config, "https://x/y/z.git", true), Ok(LoadSource::Clone)));
    match load_source_given(&s, &config, "sample", false) {
        Ok(LoadSource::Cached(name)) => assert_eq!(name, "github.com/a/sample"),
        other => panic!("unexpected {other:?}"),
    }
    assert!(matches!(
        load_source_given(&s, &config, "missing", false),
        Err(GrfError::RepoNotFound { .. })
    ));
}

#[test]
fn refresh_at_given_time() {
    let mut l = LoadingFile::default();
    l.entries.push(entry("a", "r1"));
    l.entries.push(entry("b", "r2"));
    refresh_loading_entry_at(&mut l, "/w", "b", "newcommit", 77);
    assert_eq!(l.entries[1].commit_id, "newcommit");
    assert_eq!(l.entries[1].updated_at, Some(77));
    assert_eq!(l.entries[1].loaded_at, 1);
    assert_eq!(l.entries[0].updated_at, None);
}
