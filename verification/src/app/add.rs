//! `grf add`: what is decided before a repository is cloned into the cache.
use vstd::prelude::*;

use crate::domain::error::{is_already_exists, GrfError, Result};
use crate::domain::git_url::{canonical_name_spec, storage_host_spec, GitUrlView, ParsedGitUrl};
use crate::domain::model::{ConfigFile, RepoRecord, RepoRecordView, TableView, table_get, table_insert};
use crate::infra::path::{join, utf8_join, paths_equal, utf8_paths_equal};
use crate::infra::paths::GrfPaths;
use crate::text::{chars_eq, chars_of, owned};

verus! {

/// The cache directory of a repository: `<repos root>/<host[_port]>/<owner>/<repo>`.
pub open spec fn storage_path_spec(repos_root: Seq<char>, v: GitUrlView) -> Seq<char> {
    utf8_join(utf8_join(utf8_join(repos_root, storage_host_spec(v)), v.1), v.2)
}

pub fn build_repo_storage_path(paths: &GrfPaths, parsed: &ParsedGitUrl) -> (p: String)
    ensures
        p@ == storage_path_spec(paths.repos_root@, parsed@),
{
    let host = join(paths.repos_root.as_str(), parsed.storage_host().as_str());
    let owner = join(host.as_str(), parsed.owner.as_str());
    join(owner.as_str(), parsed.repo.as_str())
}

/// The first cached repository with the same URL or the same cache directory.
pub open spec fn first_conflict(t: TableView, url: Seq<char>, path: Seq<char>) -> Option<int>
    decreases t.len(),
{
    if t.len() == 0 {
        None
    } else if t[0].1.url == url || utf8_paths_equal(t[0].1.path, path) {
        Some(0)
    } else {
        match first_conflict(t.drop_first(), url, path) {
            Some(i) => Some(i + 1),
            None => None,
        }
    }
}

/// What checking a new repository against the cache answers: `RepoAlreadyExists`
/// naming `name` when the key is taken, else naming the first repository with the
/// same URL or cache directory, else success.
pub open spec fn new_repository_outcome(
    r: Result<()>,
    t: TableView,
    name: Seq<char>,
    url: Seq<char>,
    path: Seq<char>,
) -> bool {
    if table_get(t, name) is Some {
        r matches Err(e) && is_already_exists(e, name)
    } else {
        match first_conflict(t, url, path) {
            Some(i) => r matches Err(e) && is_already_exists(e, t[i].1.name),
            None => r is Ok,
        }
    }
}

/// Refuses a repository whose key, URL or cache directory the cache already holds.
pub fn check_new_repository(config: &ConfigFile, repo_name: &str, url: &str, repo_path: &str) -> (r: Result<()>)
    ensures
        new_repository_outcome(r, config.repos@, repo_name@, url@, repo_path@),
{
    if config.repos.contains_key(repo_name) {
        return Err(GrfError::RepoAlreadyExists { name: owned(repo_name) });
    }
    let u = chars_of(url);
    let ghost t = config.repos@;
    let mut i: usize = 0;
    assert(t.skip(0) =~= t);
    while i < config.repos.len()
        invariant
            i <= t.len(),
            t == config.repos@,
            table_get(t, repo_name@) is None,
            u@ == url@,
            first_conflict(t, url@, repo_path@) == match first_conflict(t.skip(i as int), url@, repo_path@) {
                Some(j) => Some(j + i),
                None => None,
            },
        decreases t.len() - i,
    {
        let rec = config.repos.record_at(i);
        let ghost rest = t.skip(i as int);
        assert(rest[0] == t[i as int]);
        assert(rest.drop_first() =~= t.skip(i + 1));
        let same_url = chars_eq(&chars_of(rec.url.as_str()), &u);
        let same_path = paths_equal(rec.path.as_str(), repo_path);
        assert(rec@ == t[i as int].1);
        if same_url || same_path {
            return Err(GrfError::RepoAlreadyExists { name: rec.name.clone() });
        }
        i += 1;
    }
    assert(t.skip(i as int).len() == 0);
    Ok(())
}

/// Where a repository added from `url` goes: its name (the explicit one, else the
/// canonical `host/owner/repo`) and its cache directory, once checked against the
/// cache.
pub fn plan_add(
    paths: &GrfPaths,
    config: &ConfigFile,
    url: &str,
    parsed: &ParsedGitUrl,
    explicit_name: Option<String>,
) -> (r: Result<(String, String)>)
    ensures
        ({
            let name = match explicit_name {
                Some(n) => n@,
                None => canonical_name_spec(parsed@),
            };
            let path = storage_path_spec(paths.repos_root@, parsed@);
            &&& new_repository_outcome(
                match r {
                    Ok(_) => Ok(()),
                    Err(e) => Err(e),
                },
                config.repos@,
                name,
                url@,
                path,
            )
            &&& (r matches Ok(plan) ==> plan.0@ == name && plan.1@ == path)
        }),
{
    let repo_name = match explicit_name {
        Some(n) => n,
        None => parsed.canonical_name(),
    };
    let repo_path = build_repo_storage_path(paths, parsed);
    match check_new_repository(config, repo_name.as_str(), url, repo_path.as_str()) {
        Ok(()) => Ok((repo_name, repo_path)),
        Err(e) => Err(e),
    }
}

/// The record of a repository just cloned into the cache, with `now` as both its
/// added and updated time; it is stored under its name and returned.
pub fn record_new_repository(
    config: &mut ConfigFile,
    name: String,
    url: &str,
    path: String,
    commit_id: String,
    branch: Option<String>,
    now: i128,
) -> (rec: RepoRecord)
    ensures
        rec@ == (RepoRecordView {
            name: name@,
            url: url@,
            path: path@,
            added_at: now,
            updated_at: now,
            commit_id: commit_id@,
            branch: branch.deep_view(),
        }),
        final(config).repos@ == table_insert(old(config).repos@, name@, rec@),
        final(config).version == old(config).version,
        final(config).defaults == old(config).defaults,
{
    let rec = RepoRecord {
        name: name.clone(),
        url: owned(url),
        path,
        added_at: now,
        updated_at: now,
        commit_id,
        branch,
    };
    config.repos.insert(name, rec.duplicate());
    rec
}

} // verus!
