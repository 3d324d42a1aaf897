//! `grf update`: which repositories are updated, when a loaded reference needs to
//! be copied again, and what is reported.
use vstd::prelude::*;

use crate::app::load::{source_path_for, source_path_spec};
use crate::domain::error::{is_repo_not_found, GrfError, Result};
use crate::domain::model::{
    ConfigFile, LoadingEntry, LoadingEntryView, LoadingFile, RepoRecord, RepoRecordView, table_get, table_insert,
};
use crate::infra::path::{join, utf8_join, paths_equal};
use crate::infra::store::{
    at_slot, entries_view, first_slot, resolved, resolve_error, StateStore,
};
use crate::text::{chars_eq, chars_of, concat, owned, push_string, string_from_chars};
use crate::ui::output::{short_commit, short_commit_spec};

verus! {

/// `time::OffsetDateTime::now_utc()`, as Unix nanoseconds. Nothing is claimed: the
/// value is the clock's.
#[verifier::external_body]
fn now_utc_nanos() -> i128 {
    time::OffsetDateTime::now_utc().unix_timestamp_nanos()
}

fn cat(a: &str, b: &str) -> (s: String)
    ensures
        s@ == a@ + b@,
{
    string_from_chars(&concat(&chars_of(a), &chars_of(b)))
}

/// The names of the repositories to update: the one `name` resolves to, or every
/// key in order when no name is given.
pub fn update_targets(store: &StateStore, config: &ConfigFile, name: Option<&str>) -> (r: Result<Vec<String>>)
    ensures
        name is None ==> (r matches Ok(v) && v.deep_view() == config.repos@.map_values(
            |e: (Seq<char>, RepoRecordView)| e.0,
        )),
        name matches Some(n) ==> match resolved(config.repos@, n@) {
            Some(rec) => r matches Ok(v) && v.deep_view() == seq![rec.name],
            None => r matches Err(e) && resolve_error(e, config.repos@, n@),
        },
{
    match name {
        Some(n) => {
            let rec = store.resolve_repo(config, n)?;
            let mut v: Vec<String> = Vec::new();
            push_string(&mut v, rec.name.clone());
            assert(v.deep_view() =~= seq![rec@.name]);
            Ok(v)
        },
        None => {
            let keys = config.repos.keys();
            assert(keys.deep_view() =~= config.repos@.map_values(
                |e: (Seq<char>, RepoRecordView)| e.0,
            ));
            Ok(keys)
        },
    }
}

/// `<name>: updates available` or `<name>: up-to-date`.
pub fn check_line(name: &str, has_updates: bool) -> (l: String)
    ensures
        l@ == name@ + if has_updates {
            ": updates available"@
        } else {
            ": up-to-date"@
        },
{
    if has_updates {
        cat(name, ": updates available")
    } else {
        cat(name, ": up-to-date")
    }
}

/// `<name>: updated to <short commit>`.
pub fn updated_line(name: &str, commit: &str) -> (l: String)
    ensures
        l@ == name@ + ": updated to "@ + short_commit_spec(commit@),
{
    let head = cat(name, ": updated to ");
    cat(head.as_str(), short_commit(commit).as_str())
}

/// `<name>: already up-to-date`.
pub fn up_to_date_line(name: &str) -> (l: String)
    ensures
        l@ == name@ + ": already up-to-date"@,
{
    cat(name, ": already up-to-date")
}

/// A loaded reference needs copying again when forced, when its target is gone, or
/// when it was loaded from another commit than the cache now holds.
pub open spec fn needs_sync_spec(
    force: bool,
    target_exists: bool,
    loaded_commit: Seq<char>,
    cache_commit: Seq<char>,
) -> bool {
    force || !target_exists || loaded_commit != cache_commit
}

pub fn needs_sync(force: bool, target_exists: bool, loaded_commit: &str, cache_commit: &str) -> (b: bool)
    ensures
        b == needs_sync_spec(force, target_exists, loaded_commit@, cache_commit@),
{
    force || !target_exists || !chars_eq(&chars_of(loaded_commit), &chars_of(cache_commit))
}

/// `<repo> -> <target> | cache <short> | loaded <short> | needs sync|in sync`.
pub open spec fn status_line_spec(
    repo_name: Seq<char>,
    target_path: Seq<char>,
    loaded_commit: Seq<char>,
    cache_commit: Seq<char>,
    target_exists: bool,
) -> Seq<char> {
    repo_name + " -> "@ + target_path + " | cache "@ + short_commit_spec(cache_commit)
        + " | loaded "@ + short_commit_spec(loaded_commit) + " | "@ + if needs_sync_spec(
        false,
        target_exists,
        loaded_commit,
        cache_commit,
    ) {
        "needs sync"@
    } else {
        "in sync"@
    }
}

pub fn status_line(entry: &LoadingEntry, cache_commit: &str, target_exists: bool) -> (l: String)
    ensures
        l@ == status_line_spec(
            entry.repo_name@,
            entry.target_path@,
            entry.commit_id@,
            cache_commit@,
            target_exists,
        ),
{
    let a = cat(entry.repo_name.as_str(), " -> ");
    let b = cat(a.as_str(), entry.target_path.as_str());
    let c = cat(b.as_str(), " | cache ");
    let d = cat(c.as_str(), short_commit(cache_commit).as_str());
    let e = cat(d.as_str(), " | loaded ");
    let f = cat(e.as_str(), short_commit(entry.commit_id.as_str()).as_str());
    let g = cat(f.as_str(), " | ");
    let state = if needs_sync(false, target_exists, entry.commit_id.as_str(), cache_commit) {
        "needs sync"
    } else {
        "in sync"
    };
    cat(g.as_str(), state)
}

/// `<repo>: already in sync`.
pub fn in_sync_line(name: &str) -> (l: String)
    ensures
        l@ == name@ + ": already in sync"@,
{
    cat(name, ": already in sync")
}

/// `<repo>: synced to <short commit>`.
pub fn synced_line(name: &str, commit: &str) -> (l: String)
    ensures
        l@ == name@ + ": synced to "@ + short_commit_spec(commit@),
{
    let head = cat(name, ": synced to ");
    cat(head.as_str(), short_commit(commit).as_str())
}

/// The cached repository a loaded reference came from; `RepoNotFound` naming it
/// when the cache no longer has it.
pub fn repo_for_entry<'a>(config: &'a ConfigFile, entry: &LoadingEntry) -> (r: Result<&'a RepoRecord>)
    ensures
        match table_get(config.repos@, entry.repo_name@) {
            Some(rec) => r matches Ok(found) && found@ == rec,
            None => r matches Err(e) && is_repo_not_found(e, entry.repo_name@),
        },
{
    match config.repos.get(entry.repo_name.as_str()) {
        Some(rec) => Ok(rec),
        None => Err(GrfError::RepoNotFound { name: entry.repo_name.clone() }),
    }
}

/// The directory a loaded reference is copied from.
pub fn entry_source_path(repo: &RepoRecord, entry: &LoadingEntry) -> (p: String)
    ensures
        p@ == source_path_spec(repo.path@, entry.subdir.deep_view()),
{
    match &entry.subdir {
        Some(s) => source_path_for(repo.path.as_str(), Some(s.as_str())),
        None => source_path_for(repo.path.as_str(), None),
    }
}

/// `MissingSubdir` naming the repository and the entry's subdirectory (empty when
/// it has none).
pub fn missing_subdir_error(repo: &RepoRecord, entry: &LoadingEntry) -> (e: GrfError)
    ensures
        e matches GrfError::MissingSubdir { repo: r, subdir } && r@ == repo.name@ && subdir@
            == match entry.subdir.deep_view() {
            Some(s) => s,
            None => Seq::<char>::empty(),
        },
{
    let subdir = match &entry.subdir {
        Some(s) => s.clone(),
        None => String::new(),
    };
    GrfError::MissingSubdir { repo: repo.name.clone(), subdir }
}

/// What syncing one loaded reference comes to, once the cache's commit and whether
/// the target exists are known.
#[derive(Debug)]
pub enum SyncStep {
    /// Nothing to copy; report `line`.
    InSync { line: String },
    /// Copy `source` over `target` (removing what is there), then report `line`.
    Copy { source: String, target: String, line: String },
}

/// Decides one loaded reference of `grf update --sync`: copy again when forced, when
/// the target is gone or when the cache moved to another commit; else report it in
/// sync.
pub fn plan_sync_entry(
    repo: &RepoRecord,
    entry: &LoadingEntry,
    cwd: &str,
    cache_commit: &str,
    target_exists: bool,
    force: bool,
) -> (s: SyncStep)
    ensures
        if needs_sync_spec(force, target_exists, entry.commit_id@, cache_commit@) {
            s matches SyncStep::Copy { source, target, line } && source@ == source_path_spec(
                repo.path@,
                entry.subdir.deep_view(),
            ) && target@ == utf8_join(cwd@, entry.target_path@) && line@ == entry.repo_name@
                + ": synced to "@ + short_commit_spec(cache_commit@)
        } else {
            s matches SyncStep::InSync { line } && line@ == entry.repo_name@ + ": already in sync"@
        },
{
    if needs_sync(force, target_exists, entry.commit_id.as_str(), cache_commit) {
        SyncStep::Copy {
            source: entry_source_path(repo, entry),
            target: join(cwd, entry.target_path.as_str()),
            line: synced_line(entry.repo_name.as_str(), cache_commit),
        }
    } else {
        SyncStep::InSync { line: in_sync_line(entry.repo_name.as_str()) }
    }
}

/// Records the state a cached repository is in after a pull or a branch switch:
/// its commit, its branch and `now` as its update time; the record is stored back
/// under its name and returned.
pub fn record_refreshed_repository(
    config: &mut ConfigFile,
    repo: &RepoRecord,
    commit_id: String,
    branch: Option<String>,
    now: i128,
) -> (rec: RepoRecord)
    ensures
        rec@ == (RepoRecordView {
            commit_id: commit_id@,
            branch: branch.deep_view(),
            updated_at: now,
            ..repo@
        }),
        final(config).repos@ == table_insert(old(config).repos@, repo.name@, rec@),
        final(config).version == old(config).version,
        final(config).defaults == old(config).defaults,
{
    let mut rec = repo.duplicate();
    rec.commit_id = commit_id;
    rec.branch = branch;
    rec.updated_at = now;
    config.repos.insert(repo.name.clone(), rec.duplicate());
    rec
}

/// Records that the reference at `target_path` in workspace `cwd` now holds
/// `commit_id`: the first such entry gets the commit and the current time as its
/// update time; nothing else changes.
pub fn refresh_loading_entry(loading: &mut LoadingFile, cwd: &str, target_path: &str, commit_id: &str)
    ensures
        final(loading).version == old(loading).version,
        match first_slot(entries_view(old(loading).entries@), cwd@, target_path@) {
            Some(i) => {
                &&& final(loading).entries@.len() == old(loading).entries@.len()
                &&& forall|j: int|
                    0 <= j < old(loading).entries@.len() && j != i ==> #[trigger] final(loading).entries@[j]@
                        == old(loading).entries@[j]@
                &&& final(loading).entries@[i]@.commit_id == commit_id@
                &&& final(loading).entries@[i]@.updated_at is Some
                &&& final(loading).entries@[i]@ == (crate::domain::model::LoadingEntryView {
                    commit_id: commit_id@,
                    updated_at: final(loading).entries@[i]@.updated_at,
                    ..old(loading).entries@[i]@
                })
            },
            None => entries_view(final(loading).entries@) == entries_view(old(loading).entries@),
        },
{
    let now = now_utc_nanos();
    refresh_loading_entry_at(loading, cwd, target_path, commit_id, now);
}

/// `refresh_loading_entry` at the time `now`: the first entry at `target_path` in
/// workspace `cwd` gets `commit_id` and `now` as its update time; nothing else
/// changes.
pub fn refresh_loading_entry_at(
    loading: &mut LoadingFile,
    cwd: &str,
    target_path: &str,
    commit_id: &str,
    now: i128,
)
    ensures
        final(loading).version == old(loading).version,
        match first_slot(entries_view(old(loading).entries@), cwd@, target_path@) {
            Some(i) => {
                &&& final(loading).entries@.len() == old(loading).entries@.len()
                &&& forall|j: int|
                    0 <= j < old(loading).entries@.len() && j != i ==> #[trigger] final(loading).entries@[j]@
                        == old(loading).entries@[j]@
                &&& final(loading).entries@[i]@ == (crate::domain::model::LoadingEntryView {
                    commit_id: commit_id@,
                    updated_at: Some(now),
                    ..old(loading).entries@[i]@
                })
            },
            None => entries_view(final(loading).entries@) == entries_view(old(loading).entries@),
        },
{
    let ghost es = entries_view(loading.entries@);
    let t = chars_of(target_path);
    let mut i: usize = 0;
    while i < loading.entries.len()
        invariant
            i <= loading.entries@.len(),
            loading.entries@ == old(loading).entries@,
            loading.version == old(loading).version,
            es == entries_view(loading.entries@),
            t@ == target_path@,
            forall|j: int| 0 <= j < i ==> !at_slot(#[trigger] es[j], cwd@, target_path@),
        decreases loading.entries@.len() - i,
    {
        let candidate = &loading.entries[i];
        assert(es[i as int] == loading.entries@[i as int]@);
        let same_dir = paths_equal(candidate.working_directory.as_str(), cwd);
        let same_target = chars_eq(&chars_of(candidate.target_path.as_str()), &t);
        if same_dir && same_target {
            proof { crate::infra::store::lemma_first_slot_at(es, cwd@, target_path@, i as int); }
            let mut updated = candidate.duplicate();
            updated.commit_id = owned(commit_id);
            updated.updated_at = Some(now);
            loading.entries.set(i, updated);
            return;
        }
        i += 1;
    }
    proof { crate::infra::store::lemma_first_slot_none(es, cwd@, target_path@); }
}

/// A reference refreshed to the cache's commit, whose target exists, needs no sync
/// unless forced, and its status line reports it in sync.
pub proof fn law_refreshed_reference_is_in_sync(entry: LoadingEntryView, cache_commit: Seq<char>)
    requires
        entry.commit_id == cache_commit,
    ensures
        !needs_sync_spec(false, true, entry.commit_id, cache_commit),
        status_line_spec(entry.repo_name, entry.target_path, entry.commit_id, cache_commit, true)
            == entry.repo_name + " -> "@ + entry.target_path + " | cache "@ + short_commit_spec(
            cache_commit,
        ) + " | loaded "@ + short_commit_spec(cache_commit) + " | "@ + "in sync"@,
{
}

/// `No loaded references need syncing.`
pub fn nothing_to_sync_line() -> (l: String)
    ensures
        l@ == "No loaded references need syncing."@,
{
    owned("No loaded references need syncing.")
}


/// `grf update --status` reports on the loaded references of the workspace, so it
/// needs some: `NoLoadedReferences` when `entries` is empty.
pub fn require_loaded_references(entries: &Vec<&LoadingEntry>) -> (r: Result<()>)
    ensures
        entries@.len() == 0 ==> r matches Err(GrfError::NoLoadedReferences),
        entries@.len() > 0 ==> r is Ok,
{
    if entries.len() == 0 {
        Err(GrfError::NoLoadedReferences)
    } else {
        Ok(())
    }
}

/// What `grf update --sync` reports when the workspace has no loaded references:
/// the one line `No loaded references need syncing.`; `None` when there are
/// entries to go through.
pub fn empty_sync_report(entries: &Vec<LoadingEntry>) -> (r: Option<Vec<String>>)
    ensures
        entries@.len() == 0 ==> (r matches Some(v) && v.deep_view() == seq![
            "No loaded references need syncing."@,
        ]),
        entries@.len() > 0 ==> r is None,
{
    if entries.len() == 0 {
        let mut v: Vec<String> = Vec::new();
        push_string(&mut v, nothing_to_sync_line());
        assert(v.deep_view() =~= seq!["No loaded references need syncing."@]);
        Some(v)
    } else {
        None
    }
}

} // verus!
