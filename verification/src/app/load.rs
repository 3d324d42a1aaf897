//! `grf load`: where a cached repository is copied from and to, and what is
//! recorded about it.
use vstd::prelude::*;

use crate::domain::error::{GrfError, Result};
use crate::domain::git_url::path_exists;
use crate::domain::model::{clone_opt, ConfigFile, LoadingEntry, LoadingEntryView, RepoRecord};
use crate::infra::store::{resolve_error, resolved, StateStore};
use crate::infra::path::{join, utf8_join, strip_prefix, utf8_strip_prefix};
use crate::text::{
    chars_eq, chars_of, concat, ends_with, ends_with_chars, owned, push_string, replace_char,
    replace_char_exec, starts_with, starts_with_chars, string_from_chars,
};

verus! {

/// Where `grf load` takes the repository from.
#[derive(Debug)]
pub enum LoadSource {
    /// The name is a Git location: it is cloned into the cache first.
    Clone,
    /// The cached repository with this name.
    Cached(String),
}

/// Where `grf load <name>` takes the repository from, once it is known whether
/// `name` looks like a Git location (`looks_like_git_url`): a location is cloned;
/// any other name is resolved in the cache, failing as `resolve_repo` fails.
pub fn load_source_given(
    store: &StateStore,
    config: &ConfigFile,
    name: &str,
    is_location: bool,
) -> (r: Result<LoadSource>)
    ensures
        is_location ==> r matches Ok(LoadSource::Clone),
        !is_location ==> match resolved(config.repos@, name@) {
            Some(rec) => r matches Ok(LoadSource::Cached(n)) && n@ == rec.name,
            None => r matches Err(e) && resolve_error(e, config.repos@, name@),
        },
{
    if is_location {
        return Ok(LoadSource::Clone);
    }
    let repo = store.resolve_repo(config, name)?;
    Ok(LoadSource::Cached(repo.name.clone()))
}

/// The directory copied: the repository's cache directory, or a subdirectory of it.
pub open spec fn source_path_spec(repo_path: Seq<char>, subdir: Option<Seq<char>>) -> Seq<char> {
    match subdir {
        Some(s) => utf8_join(repo_path, s),
        None => repo_path,
    }
}

/// `source_path_spec` as an executable function.
pub fn source_path_for(repo_path: &str, subdir: Option<&str>) -> (p: String)
    ensures
        p@ == source_path_spec(
            repo_path@,
            match subdir {
                Some(s) => Some(s@),
                None => None,
            },
        ),
{
    match subdir {
        Some(s) => join(repo_path, s),
        None => owned(repo_path),
    }
}

/// The directory to copy, once it is seen to exist; `MissingSubdir` naming the
/// cache directory and the subdirectory (empty when none was asked for) when it
/// does not. Whether it exists depends on the disk.
pub fn determine_source_path(repo_path: &str, subdir: Option<&str>) -> (r: Result<String>)
    ensures
        r matches Ok(p) ==> p@ == source_path_spec(
            repo_path@,
            match subdir {
                Some(s) => Some(s@),
                None => None,
            },
        ),
        r matches Err(e) ==> missing_source_error(e, repo_path@, subdir),
{
    let source = source_path_for(repo_path, subdir);
    let exists = path_exists(source.as_str());
    checked_source_path(repo_path, subdir, exists)
}

/// `MissingSubdir` naming the cache directory and the subdirectory asked for
/// (empty when none was).
pub open spec fn missing_source_error(e: GrfError, repo_path: Seq<char>, subdir: Option<&str>) -> bool {
    e matches GrfError::MissingSubdir { repo, subdir: sd } && repo@ == repo_path && sd@
        == match subdir {
        Some(s) => s@,
        None => Seq::<char>::empty(),
    }
}

/// What `determine_source_path` answers once it is known whether the directory to
/// copy exists.
pub fn checked_source_path(repo_path: &str, subdir: Option<&str>, exists: bool) -> (r: Result<String>)
    ensures
        exists ==> (r matches Ok(p) && p@ == source_path_spec(
            repo_path@,
            match subdir {
                Some(s) => Some(s@),
                None => None,
            },
        )),
        !exists ==> (r matches Err(e) && missing_source_error(e, repo_path@, subdir)),
{
    if !exists {
        let sd = match subdir {
            Some(s) => owned(s),
            None => String::new(),
        };
        return Err(GrfError::MissingSubdir { repo: owned(repo_path), subdir: sd });
    }
    Ok(source_path_for(repo_path, subdir))
}

/// Where a reference is copied: the given path under the workspace, or
/// `.gitreference/<repo name>` in it.
pub open spec fn target_path_spec(cwd: Seq<char>, repo_name: Seq<char>, target: Option<Seq<char>>) -> Seq<char> {
    match target {
        Some(t) => utf8_join(cwd, t),
        None => utf8_join(utf8_join(cwd, ".gitreference"@), repo_name),
    }
}

pub fn determine_target_path(cwd: &str, repo_name: &str, target: Option<&str>) -> (p: String)
    ensures
        p@ == target_path_spec(
            cwd@,
            repo_name@,
            match target {
                Some(t) => Some(t@),
                None => None,
            },
        ),
{
    match target {
        Some(t) => join(cwd, t),
        None => {
            let root = join(cwd, ".gitreference");
            join(root.as_str(), repo_name)
        },
    }
}

/// The target relative to the workspace, with `/` separators; `InvalidArgument`
/// when the target is not inside the workspace.
pub fn relative_target_path(cwd: &str, target: &str) -> (r: Result<String>)
    ensures
        match utf8_strip_prefix(target@, cwd@) {
            Some(rel) => r matches Ok(s) && s@ == replace_char(rel, '\\', '/'),
            None => r matches Err(GrfError::InvalidArgument { message }) && message@
                == "目标路径不在当前工作区内: "@ + target@,
        },
{
    match strip_prefix(target, cwd) {
        Some(rel) => Ok(string_from_chars(&replace_char_exec(&chars_of(rel.as_str()), '\\', '/'))),
        None => {
            let message = concat(&chars_of("目标路径不在当前工作区内: "), &chars_of(target));
            Err(GrfError::InvalidArgument { message: string_from_chars(&message) })
        },
    }
}

/// A `.gitignore` entry for a directory: the path with one trailing `/`.
pub open spec fn dir_entry_spec(path: Seq<char>) -> Seq<char> {
    if ends_with(path, seq!['/']) {
        path
    } else {
        path.push('/')
    }
}

pub fn dir_gitignore_entry(path: &str) -> (e: String)
    ensures
        e@ == dir_entry_spec(path@),
{
    let v = chars_of(path);
    let mut slash: Vec<char> = Vec::new();
    slash.push('/');
    assert(slash@ =~= seq!['/']);
    if ends_with_chars(&v, &slash) {
        owned(path)
    } else {
        let mut w = v;
        w.push('/');
        string_from_chars(&w)
    }
}

/// The `.gitignore` entries a load ensures: none with `--no-ignore`; otherwise
/// `.gitreference/`, and the target's directory entry when the target lies
/// outside `.gitreference/`.
pub open spec fn load_gitignore_entries_spec(no_ignore: bool, target_relative: Seq<char>) -> Seq<Seq<char>> {
    if no_ignore {
        seq![]
    } else if starts_with(target_relative, ".gitreference/"@) {
        seq![".gitreference/"@]
    } else {
        seq![".gitreference/"@, dir_entry_spec(target_relative)]
    }
}

pub fn load_gitignore_entries(no_ignore: bool, target_relative: &str) -> (es: Vec<String>)
    ensures
        es.deep_view() == load_gitignore_entries_spec(no_ignore, target_relative@),
{
    let mut es: Vec<String> = Vec::new();
    if no_ignore {
        assert(es.deep_view() =~= Seq::<Seq<char>>::empty());
        return es;
    }
    push_string(&mut es, owned(".gitreference/"));
    if !starts_with_chars(&chars_of(target_relative), &chars_of(".gitreference/")) {
        push_string(&mut es, dir_gitignore_entry(target_relative));
    }
    assert(es.deep_view() =~= load_gitignore_entries_spec(no_ignore, target_relative@));
    es
}

/// The branch to switch the cached repository to: the requested one, when it is not
/// the repository's current branch.
pub fn branch_to_switch(requested: &Option<String>, current: &Option<String>) -> (b: Option<String>)
    ensures
        b.deep_view() == match (requested.deep_view(), current.deep_view()) {
            (Some(r), Some(c)) => if r == c {
                None
            } else {
                Some(r)
            },
            (Some(r), None) => Some(r),
            (None, _) => None,
        },
{
    match requested {
        Some(r) => match current {
            Some(c) => {
                if chars_eq(&chars_of(r.as_str()), &chars_of(c.as_str())) {
                    None
                } else {
                    Some(r.clone())
                }
            },
            None => Some(r.clone()),
        },
        None => None,
    }
}

/// The record of a load: the repository's name, URL, commit and branch, the
/// subdirectory and relative target, loaded and updated at `now`, in workspace
/// `cwd`, with no id yet.
pub open spec fn loading_entry_spec(
    repo: crate::domain::model::RepoRecordView,
    subdir: Option<Seq<char>>,
    target_relative: Seq<char>,
    now: i128,
    cwd: Seq<char>,
) -> LoadingEntryView {
    LoadingEntryView {
        id: seq![],
        repo_name: repo.name,
        repo_url: repo.url,
        commit_id: repo.commit_id,
        branch: repo.branch,
        subdir: subdir,
        target_path: target_relative,
        loaded_at: now,
        updated_at: Some(now),
        working_directory: cwd,
    }
}

pub fn loading_entry_for(
    repo: &RepoRecord,
    subdir: &Option<String>,
    target_relative: &str,
    now: i128,
    cwd: &str,
) -> (e: LoadingEntry)
    ensures
        e@ == loading_entry_spec(repo@, subdir.deep_view(), target_relative@, now, cwd@),
{
    let e = LoadingEntry {
        id: String::new(),
        repo_name: repo.name.clone(),
        repo_url: repo.url.clone(),
        commit_id: repo.commit_id.clone(),
        branch: clone_opt(&repo.branch),
        subdir: clone_opt(subdir),
        target_path: owned(target_relative),
        loaded_at: now,
        updated_at: Some(now),
        working_directory: owned(cwd),
    };
    assert(e@.id =~= Seq::<char>::empty());
    e
}

} // verus!
