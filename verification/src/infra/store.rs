//! Looking things up in, and updating, the state that `grf` keeps.
use vstd::prelude::*;

use crate::domain::error::{GrfError, Result};
use crate::domain::git_url::last_index_of;
use crate::domain::model::{
    LoadingEntry, LoadingEntryView, LoadingFile, ConfigFile, RepoRecord, RepoRecordView,
    TableView, law_table_insert, sorted_keys, table_get, table_insert,
};
use crate::infra::path::{paths_equal, utf8_paths_equal};
use crate::infra::paths::GrfPaths;
use crate::text::{
    chars_eq, chars_of, concat, ends_with, ends_with_chars, owned, push_string, slice_chars,
};

verus! {

/// `uuid::Uuid::new_v4`, written out with `to_string`. Claims only the length of the
/// hyphenated form (36 characters); the value is random.
#[verifier::external_body]
fn new_uuid_string() -> (s: String)
    ensures
        s@.len() == 36,
{
    uuid::Uuid::new_v4().to_string()
}

/// The part of a repository name after its last `/` (all of it when there is none).
pub open spec fn last_piece(name: Seq<char>) -> Seq<char> {
    match last_index_of(name, '/') {
        Some(k) => name.skip(k + 1),
        None => name,
    }
}

/// A repository name that `needle` refers to: the whole name, its tail after a
/// `/`, or its last piece.
pub open spec fn name_matches(name: Seq<char>, needle: Seq<char>) -> bool {
    ||| name == needle
    ||| ends_with(name, seq!['/'] + needle)
    ||| last_piece(name) == needle
}

/// The records, in key order, whose names `needle` refers to.
pub open spec fn matching_records(t: TableView, needle: Seq<char>) -> Seq<RepoRecordView>
    decreases t.len(),
{
    if t.len() == 0 {
        seq![]
    } else if name_matches(t[0].1.name, needle) {
        seq![t[0].1] + matching_records(t.drop_first(), needle)
    } else {
        matching_records(t.drop_first(), needle)
    }
}

/// The record that `needle` resolves to: the one under that key, else the one
/// record whose name it refers to.
pub open spec fn resolved(t: TableView, needle: Seq<char>) -> Option<RepoRecordView> {
    match table_get(t, needle) {
        Some(rec) => Some(rec),
        None => {
            let m = matching_records(t, needle);
            if m.len() == 1 {
                Some(m[0])
            } else {
                None
            }
        },
    }
}

/// The error for a `needle` that resolves to nothing: `RepoNotFound` when no name
/// matches, `AmbiguousRepoName` listing the matching names in key order otherwise.
pub open spec fn resolve_error(e: GrfError, t: TableView, needle: Seq<char>) -> bool {
    let m = matching_records(t, needle);
    if m.len() == 0 {
        crate::domain::error::is_repo_not_found(e, needle)
    } else {
        e matches GrfError::AmbiguousRepoName { name, matches } && name@ == needle
            && matches.deep_view() == m.map_values(|x: RepoRecordView| x.name)
    }
}

proof fn lemma_last_index_of_facts(s: Seq<char>, c: char)
    ensures
        last_index_of(s, c) matches Some(k) ==> 0 <= k < s.len() && s[k] == c,
    decreases s.len(),
{
    if s.len() > 0 && s.last() != c {
        lemma_last_index_of_facts(s.drop_last(), c);
    }
}

/// A name whose last `/`-piece is `needle` is `needle` itself, or ends in `/`
/// followed by `needle`.
pub proof fn lemma_last_piece_is_tail(name: Seq<char>, needle: Seq<char>)
    requires
        last_piece(name) == needle,
    ensures
        name == needle || ends_with(name, seq!['/'].add(needle)),
{
    lemma_last_index_of_facts(name, '/');
    match last_index_of(name, '/') {
        Some(k) => {
            let tail = seq!['/'].add(needle);
            assert(name.skip(name.len() - tail.len()) =~= tail) by {
                assert(name.skip(k + 1) == needle);
                assert forall|x: int| 0 <= x < tail.len() implies name.skip(name.len() - tail.len())[x]
                    == tail[x] by {
                    if x > 0 {
                        assert(name.skip(k + 1)[x - 1] == name[k + x]);
                    }
                }
            }
        },
        None => {},
    }
}

proof fn lemma_matching_records_match(t: TableView, needle: Seq<char>)
    ensures
        forall|j: int|
            0 <= j < matching_records(t, needle).len() ==> name_matches(
                #[trigger] matching_records(t, needle)[j].name,
                needle,
            ),
    decreases t.len(),
{
    if t.len() > 0 {
        lemma_matching_records_match(t.drop_first(), needle);
        let rest = matching_records(t.drop_first(), needle);
        if name_matches(t[0].1.name, needle) {
            assert forall|j: int| 0 <= j < matching_records(t, needle).len() implies name_matches(
                #[trigger] matching_records(t, needle)[j].name,
                needle,
            ) by {
                if j > 0 {
                    assert(matching_records(t, needle)[j] == rest[j - 1]);
                }
            }
        }
    }
}

proof fn lemma_no_records_match(t: TableView, needle: Seq<char>)
    requires
        forall|j: int| 0 <= j < t.len() ==> !name_matches(#[trigger] t[j].1.name, needle),
    ensures
        matching_records(t, needle).len() == 0,
    decreases t.len(),
{
    if t.len() > 0 {
        assert forall|j: int| 0 <= j < t.drop_first().len() implies !name_matches(
            #[trigger] t.drop_first()[j].1.name,
            needle,
        ) by {
            assert(t.drop_first()[j] == t[j + 1]);
        }
        lemma_no_records_match(t.drop_first(), needle);
    }
}

proof fn lemma_one_record_matches(t: TableView, needle: Seq<char>, i: int)
    requires
        0 <= i < t.len(),
        name_matches(t[i].1.name, needle),
        forall|j: int| 0 <= j < t.len() && j != i ==> !name_matches(#[trigger] t[j].1.name, needle),
    ensures
        matching_records(t, needle) =~= seq![t[i].1],
    decreases t.len(),
{
    if i == 0 {
        assert forall|j: int| 0 <= j < t.drop_first().len() implies !name_matches(
            #[trigger] t.drop_first()[j].1.name,
            needle,
        ) by {
            assert(t.drop_first()[j] == t[j + 1]);
        }
        lemma_no_records_match(t.drop_first(), needle);
    } else {
        assert(!name_matches(t[0].1.name, needle));
        assert forall|j: int| 0 <= j < t.drop_first().len() && j != i - 1 implies !name_matches(
            #[trigger] t.drop_first()[j].1.name,
            needle,
        ) by {
            assert(t.drop_first()[j] == t[j + 1]);
        }
        lemma_one_record_matches(t.drop_first(), needle, i - 1);
    }
}

/// A needle refers to a cached repository only at a `/` boundary: each record it
/// matches has the needle as its whole name or as the part after a `/`.
pub proof fn law_names_match_at_slash_boundaries(t: TableView, needle: Seq<char>)
    ensures
        forall|j: int|
            0 <= j < matching_records(t, needle).len() ==> {
                let name = #[trigger] matching_records(t, needle)[j].name;
                name == needle || ends_with(name, seq!['/'].add(needle))
            },
{
    lemma_matching_records_match(t, needle);
    assert forall|j: int| 0 <= j < matching_records(t, needle).len() implies {
        let name = #[trigger] matching_records(t, needle)[j].name;
        name == needle || ends_with(name, seq!['/'].add(needle))
    } by {
        let name = matching_records(t, needle)[j].name;
        if last_piece(name) == needle {
            lemma_last_piece_is_tail(name, needle);
        }
    }
}

/// When no key is the needle and exactly one record's name is the needle or ends
/// in `/` followed by it, the needle resolves to that record.
pub proof fn law_single_slash_tail_resolves(t: TableView, needle: Seq<char>, i: int)
    requires
        0 <= i < t.len(),
        table_get(t, needle) is None,
        t[i].1.name == needle || ends_with(t[i].1.name, seq!['/'].add(needle)),
        forall|j: int|
            0 <= j < t.len() && j != i ==> !(#[trigger] t[j].1.name == needle || ends_with(
                t[j].1.name,
                seq!['/'].add(needle),
            )),
    ensures
        resolved(t, needle) == Some(t[i].1),
{
    assert(seq!['/'].add(needle) == seq!['/'] + needle);
    assert forall|j: int| 0 <= j < t.len() && j != i implies !name_matches(#[trigger] t[j].1.name, needle) by {
        if last_piece(t[j].1.name) == needle {
            lemma_last_piece_is_tail(t[j].1.name, needle);
        }
    }
    lemma_one_record_matches(t, needle, i);
}

/// An upsert that finds an entry at the new entry's target of its workspace brings
/// that entry up to date: repository, URL, commit, branch, subdirectory and update
/// time become the new entry's; id, target, load time and workspace stay. What it
/// returns is that entry.
pub proof fn law_upsert_takes_the_new_fields(es: Seq<LoadingEntryView>, e: LoadingEntryView, fresh: LoadingEntryView)
    ensures
        first_slot(es, e.working_directory, e.target_path) matches Some(i) ==> {
            let n = upserted(es, e, fresh)[i];
            &&& n.repo_name == e.repo_name
            &&& n.repo_url == e.repo_url
            &&& n.commit_id == e.commit_id
            &&& n.branch == e.branch
            &&& n.subdir == e.subdir
            &&& n.updated_at == e.updated_at
            &&& n.id == es[i].id
            &&& n.target_path == es[i].target_path
            &&& n.loaded_at == es[i].loaded_at
            &&& n.working_directory == es[i].working_directory
            &&& refreshed(es[i], e) == n
        },
{
    lemma_first_slot_facts(es, e.working_directory, e.target_path);
}

/// What `resolve_repo` answers for `needle`.
pub open spec fn resolve_outcome<T: View<V = RepoRecordView>>(r: Result<T>, t: TableView, needle: Seq<char>) -> bool {
    match r {
        Ok(found) => resolved(t, needle) == Some(found@),
        Err(e) => resolved(t, needle) is None && resolve_error(e, t, needle),
    }
}

/// A repository stored under a key is what that key resolves to afterwards.
pub proof fn law_stored_repository_resolves(t: TableView, k: Seq<char>, v: RepoRecordView)
    requires
        sorted_keys(t),
    ensures
        resolved(table_insert(t, k, v), k) == Some(v),
{
    law_table_insert(t, k, v, k);
}

pub open spec fn entries_view(v: Seq<LoadingEntry>) -> Seq<LoadingEntryView> {
    v.map_values(|e: LoadingEntry| e@)
}

/// Entry `e` is the one loaded at `target` in the workspace `wd`.
pub open spec fn at_slot(e: LoadingEntryView, wd: Seq<char>, target: Seq<char>) -> bool {
    utf8_paths_equal(e.working_directory, wd) && e.target_path == target
}

/// The first entry loaded at `target` in the workspace `wd`.
pub open spec fn first_slot(es: Seq<LoadingEntryView>, wd: Seq<char>, target: Seq<char>) -> Option<int>
    decreases es.len(),
{
    if es.len() == 0 {
        None
    } else if at_slot(es[0], wd, target) {
        Some(0)
    } else {
        match first_slot(es.drop_first(), wd, target) {
            Some(i) => Some(i + 1),
            None => None,
        }
    }
}

/// `old` brought up to date from `new`: repository, URL, commit, branch, subdirectory
/// and update time taken from `new`; id, target, load time and workspace kept.
pub open spec fn refreshed(old: LoadingEntryView, new: LoadingEntryView) -> LoadingEntryView {
    LoadingEntryView {
        id: old.id,
        repo_name: new.repo_name,
        repo_url: new.repo_url,
        commit_id: new.commit_id,
        branch: new.branch,
        subdir: new.subdir,
        target_path: old.target_path,
        loaded_at: old.loaded_at,
        updated_at: new.updated_at,
        working_directory: old.working_directory,
    }
}

/// `e` with a different id.
pub open spec fn with_id(e: LoadingEntryView, id: Seq<char>) -> LoadingEntryView {
    LoadingEntryView { id: id, ..e }
}

/// The entries that belong to the workspace `cwd`, in order.
pub open spec fn workspace_entries(es: Seq<LoadingEntryView>, cwd: Seq<char>) -> Seq<LoadingEntryView>
    decreases es.len(),
{
    if es.len() == 0 {
        seq![]
    } else if utf8_paths_equal(es[0].working_directory, cwd) {
        seq![es[0]] + workspace_entries(es.drop_first(), cwd)
    } else {
        workspace_entries(es.drop_first(), cwd)
    }
}

/// The entries other than those loaded at `target` in the workspace `wd`.
pub open spec fn without_slot(es: Seq<LoadingEntryView>, wd: Seq<char>, target: Seq<char>) -> Seq<LoadingEntryView>
    decreases es.len(),
{
    if es.len() == 0 {
        seq![]
    } else if at_slot(es[0], wd, target) {
        without_slot(es.drop_first(), wd, target)
    } else {
        seq![es[0]] + without_slot(es.drop_first(), wd, target)
    }
}

/// Once the entries at a target of a workspace are dropped, none is left there, and
/// every other entry stays, in order.
pub proof fn law_removed_slot_is_empty(es: Seq<LoadingEntryView>, wd: Seq<char>, target: Seq<char>)
    ensures
        forall|i: int|
            0 <= i < without_slot(es, wd, target).len() ==> !at_slot(#[trigger] without_slot(es, wd, target)[i], wd, target),
        without_slot(es, wd, target).len() + count_at_slot(es, wd, target) == es.len(),
    decreases es.len(),
{
    if es.len() > 0 {
        law_removed_slot_is_empty(es.drop_first(), wd, target);
        let rest = without_slot(es.drop_first(), wd, target);
        if !at_slot(es[0], wd, target) {
            assert forall|i: int| 0 <= i < without_slot(es, wd, target).len() implies !at_slot(
                #[trigger] without_slot(es, wd, target)[i],
                wd,
                target,
            ) by {
                if i > 0 {
                    assert(without_slot(es, wd, target)[i] == rest[i - 1]);
                }
            }
        }
    }
}

/// How many entries are at a target of a workspace.
pub open spec fn count_at_slot(es: Seq<LoadingEntryView>, wd: Seq<char>, target: Seq<char>) -> nat
    decreases es.len(),
{
    if es.len() == 0 {
        0
    } else if at_slot(es[0], wd, target) {
        1 + count_at_slot(es.drop_first(), wd, target)
    } else {
        count_at_slot(es.drop_first(), wd, target)
    }
}

/// The entries once `e` is upserted: the first entry at its target of its workspace
/// brought up to date from it, or, when there is none, `fresh` appended.
pub open spec fn upserted(es: Seq<LoadingEntryView>, e: LoadingEntryView, fresh: LoadingEntryView) -> Seq<LoadingEntryView> {
    match first_slot(es, e.working_directory, e.target_path) {
        Some(i) => es.update(i, refreshed(es[i], e)),
        None => es.push(fresh),
    }
}

/// No two entries sit at the same target of the same workspace: the workspace and
/// target of each entry differ from those of every later one.
pub open spec fn distinct_slots(es: Seq<LoadingEntryView>) -> bool {
    forall|i: int, j: int|
        #![trigger es[i], es[j]]
        0 <= i < j < es.len() ==> !at_slot(es[i], es[j].working_directory, es[j].target_path)
}

proof fn lemma_first_slot_none_all(es: Seq<LoadingEntryView>, wd: Seq<char>, target: Seq<char>)
    requires
        first_slot(es, wd, target) is None,
    ensures
        forall|j: int| 0 <= j < es.len() ==> !at_slot(#[trigger] es[j], wd, target),
    decreases es.len(),
{
    if es.len() > 0 {
        lemma_first_slot_none_all(es.drop_first(), wd, target);
        assert forall|j: int| 0 <= j < es.len() implies !at_slot(#[trigger] es[j], wd, target) by {
            if j > 0 {
                assert(es[j] == es.drop_first()[j - 1]);
            }
        }
    }
}

/// Upserting keeps the entries at distinct targets of their workspaces. When no
/// entry sat at the new entry's target, the entries become the old ones with
/// `fresh` appended last; otherwise their number stays and each keeps its workspace
/// and target.
pub proof fn law_upsert_keeps_targets_distinct(
    es: Seq<LoadingEntryView>,
    e: LoadingEntryView,
    fresh: LoadingEntryView,
)
    requires
        distinct_slots(es),
        fresh.working_directory == e.working_directory,
        fresh.target_path == e.target_path,
    ensures
        distinct_slots(upserted(es, e, fresh)),
        first_slot(es, e.working_directory, e.target_path) is None ==> upserted(es, e, fresh)
            == es.push(fresh),
        first_slot(es, e.working_directory, e.target_path) is Some ==> {
            &&& upserted(es, e, fresh).len() == es.len()
            &&& forall|k: int|
                0 <= k < es.len() ==> (#[trigger] upserted(es, e, fresh)[k]).working_directory
                    == es[k].working_directory && upserted(es, e, fresh)[k].target_path
                    == es[k].target_path
        },
{
    let w = e.working_directory;
    let t = e.target_path;
    let n = upserted(es, e, fresh);
    match first_slot(es, w, t) {
        Some(i) => {
            lemma_first_slot_facts(es, w, t);
            assert forall|k: int| 0 <= k < es.len() implies (#[trigger] n[k]).working_directory
                == es[k].working_directory && n[k].target_path == es[k].target_path by {
                if k == i {
                    assert(n[k] == refreshed(es[i], e));
                }
            }
            assert forall|a: int, b: int|
                #![trigger n[a], n[b]]
                0 <= a < b < n.len() implies !at_slot(n[a], n[b].working_directory, n[b].target_path) by {
                assert(n[a].working_directory == es[a].working_directory);
                assert(n[b].working_directory == es[b].working_directory);
                assert(n[a].target_path == es[a].target_path);
                assert(n[b].target_path == es[b].target_path);
                assert(!at_slot(es[a], es[b].working_directory, es[b].target_path));
            }
        },
        None => {
            lemma_first_slot_none_all(es, w, t);
            assert forall|a: int, b: int|
                #![trigger n[a], n[b]]
                0 <= a < b < n.len() implies !at_slot(n[a], n[b].working_directory, n[b].target_path) by {
                assert(n[a] == es[a]);
                if b == es.len() {
                    assert(n[b] == fresh);
                    assert(!at_slot(es[a], w, t));
                } else {
                    assert(n[b] == es[b]);
                    assert(!at_slot(es[a], es[b].working_directory, es[b].target_path));
                }
            }
        },
    }
}

proof fn lemma_first_slot_facts(es: Seq<LoadingEntryView>, wd: Seq<char>, target: Seq<char>)
    ensures
        first_slot(es, wd, target) matches Some(i) ==> 0 <= i < es.len() && at_slot(es[i], wd, target),
    decreases es.len(),
{
    if es.len() > 0 {
        lemma_first_slot_facts(es.drop_first(), wd, target);
    }
}

proof fn lemma_first_slot_count(es: Seq<LoadingEntryView>, wd: Seq<char>, target: Seq<char>)
    ensures
        (first_slot(es, wd, target) is None) == (count_at_slot(es, wd, target) == 0),
    decreases es.len(),
{
    if es.len() > 0 {
        lemma_first_slot_count(es.drop_first(), wd, target);
    }
}

proof fn lemma_count_push(es: Seq<LoadingEntryView>, x: LoadingEntryView, wd: Seq<char>, target: Seq<char>)
    ensures
        count_at_slot(es.push(x), wd, target) == count_at_slot(es, wd, target) + if at_slot(x, wd, target) {
            1nat
        } else {
            0nat
        },
    decreases es.len(),
{
    if es.len() > 0 {
        assert(es.push(x)[0] == es[0]);
        assert(es.push(x).drop_first() =~= es.drop_first().push(x));
        lemma_count_push(es.drop_first(), x, wd, target);
    } else {
        assert(es.push(x)[0] == x);
        assert(es.push(x).drop_first() =~= Seq::<LoadingEntryView>::empty());
        assert(count_at_slot(es.push(x).drop_first(), wd, target) == 0);
    }
}

proof fn lemma_count_update(es: Seq<LoadingEntryView>, i: int, x: LoadingEntryView, wd: Seq<char>, target: Seq<char>)
    requires
        0 <= i < es.len(),
        at_slot(x, wd, target) == at_slot(es[i], wd, target),
    ensures
        count_at_slot(es.update(i, x), wd, target) == count_at_slot(es, wd, target),
    decreases es.len(),
{
    if i > 0 {
        assert(es.update(i, x).drop_first() =~= es.drop_first().update(i - 1, x));
        lemma_count_update(es.drop_first(), i - 1, x, wd, target);
    } else {
        assert(es.update(i, x).drop_first() =~= es.drop_first());
    }
}

/// Upserting keeps one entry per target of a workspace: a target that held at most
/// one entry holds exactly one afterwards, and every target that the new entry does
/// not sit at holds as many entries as before.
pub proof fn law_upsert_one_entry_per_target(
    es: Seq<LoadingEntryView>,
    e: LoadingEntryView,
    fresh: LoadingEntryView,
    wd: Seq<char>,
    target: Seq<char>,
)
    requires
        count_at_slot(es, e.working_directory, e.target_path) <= 1,
        at_slot(fresh, e.working_directory, e.target_path),
    ensures
        count_at_slot(upserted(es, e, fresh), e.working_directory, e.target_path) == 1,
        !at_slot(fresh, wd, target) ==> count_at_slot(upserted(es, e, fresh), wd, target)
            == count_at_slot(es, wd, target),
{
    let w = e.working_directory;
    let t = e.target_path;
    lemma_first_slot_count(es, w, t);
    match first_slot(es, w, t) {
        Some(i) => {
            lemma_first_slot_facts(es, w, t);
            let x = refreshed(es[i], e);
            lemma_count_update(es, i, x, w, t);
            lemma_count_update(es, i, x, wd, target);
        },
        None => {
            lemma_count_push(es, fresh, w, t);
            lemma_count_push(es, fresh, wd, target);
        },
    }
}

/// Access to the state kept under the paths of `GrfPaths`.
#[derive(Debug, Clone)]
pub struct StateStore {
    paths: GrfPaths,
}

impl StateStore {
    pub fn new(paths: GrfPaths) -> (s: Self)
        ensures
            s.paths_spec() == paths,
    {
        StateStore { paths }
    }

    pub closed spec fn paths_spec(&self) -> GrfPaths {
        self.paths
    }

    pub fn paths(&self) -> (p: &GrfPaths)
        ensures
            *p == self.paths_spec(),
    {
        &self.paths
    }

    /// The repository that `needle` names: the record under that key, else the one
    /// record whose name is `needle`, ends in `/needle`, or has `needle` as its last
    /// piece.
    pub fn resolve_repo<'a>(&self, config: &'a ConfigFile, needle: &str) -> (r: Result<&'a RepoRecord>)
        ensures
            resolve_outcome(r, config.repos@, needle@),
    {
        if let Some(repo) = config.repos.get(needle) {
            return Ok(repo);
        }
        let n = chars_of(needle);
        let mut slash_needle: Vec<char> = Vec::new();
        slash_needle.push('/');
        let slash_needle = concat(&slash_needle, &n);
        assert(slash_needle@ =~= seq!['/'] + needle@);
        let ghost t = config.repos@;
        let mut found: Vec<usize> = Vec::new();
        let mut i: usize = 0;
        assert(t.skip(0) =~= t);
        while i < config.repos.len()
            invariant
                i <= t.len(),
                t == config.repos@,
                n@ == needle@,
                slash_needle@ == seq!['/'] + needle@,
                matching_records(t, needle@) == found@.map_values(|j: usize| t[j as int].1)
                    + matching_records(t.skip(i as int), needle@),
                forall|j: int| 0 <= j < found@.len() ==> #[trigger] found@[j] < i,
            decreases t.len() - i,
        {
            let rec = config.repos.record_at(i);
            let name = chars_of(rec.name.as_str());
            let matched = chars_eq(&name, &n) || ends_with_chars(&name, &slash_needle)
                || last_piece_is(&name, &n);
            let ghost rest = t.skip(i as int);
            assert(rest[0] == t[i as int]);
            assert(rest.drop_first() =~= t.skip(i + 1));
            if matched {
                let ghost before = found@;
                found.push(i);
                assert(found@.map_values(|j: usize| t[j as int].1) =~= before.map_values(
                    |j: usize| t[j as int].1,
                ) + seq![t[i as int].1]);
            }
            i += 1;
        }
        assert(t.skip(i as int) =~= Seq::<(Seq<char>, RepoRecordView)>::empty());
        let ghost m = matching_records(t, needle@);
        assert(m =~= found@.map_values(|j: usize| t[j as int].1));
        if found.len() == 0 {
            return Err(GrfError::RepoNotFound { name: owned(needle) });
        }
        if found.len() == 1 {
            return Ok(config.repos.record_at(found[0]));
        }
        let mut names: Vec<String> = Vec::new();
        let mut k: usize = 0;
        while k < found.len()
            invariant
                k <= found@.len(),
                t == config.repos@,
                forall|j: int| 0 <= j < found@.len() ==> #[trigger] found@[j] < t.len(),
                m == found@.map_values(|j: usize| t[j as int].1),
                names.deep_view() == m.take(k as int).map_values(|x: RepoRecordView| x.name),
            decreases found@.len() - k,
        {
            let rec = config.repos.record_at(found[k]);
            let ghost before = names.deep_view();
            assert(m[k as int] == t[found@[k as int] as int].1);
            push_string(&mut names, rec.name.clone());
            assert(m.take(k + 1).map_values(|x: RepoRecordView| x.name) =~= m.take(k as int).map_values(
                |x: RepoRecordView| x.name,
            ).push(m[k as int].name));
            assert(names.deep_view() =~= m.take(k + 1).map_values(|x: RepoRecordView| x.name));
            k += 1;
        }
        assert(m.take(k as int) =~= m);
        Err(GrfError::AmbiguousRepoName { name: owned(needle), matches: names })
    }

    /// Records `entry` as loaded: the entry already loaded at the same target of the
    /// same workspace is brought up to date from it and returned; otherwise the
    /// entry is appended (given a fresh id when it has none) and returned.
    pub fn upsert_loading_entry(&self, loading: &mut LoadingFile, entry: LoadingEntry) -> (r: LoadingEntry)
        ensures
            match first_slot(
                entries_view(old(loading).entries@),
                entry@.working_directory,
                entry@.target_path,
            ) {
                Some(i) => {
                    &&& entries_view(final(loading).entries@) == entries_view(
                        old(loading).entries@,
                    ).update(i, refreshed(old(loading).entries@[i]@, entry@))
                    &&& r@ == refreshed(old(loading).entries@[i]@, entry@)
                },
                None => {
                    &&& entries_view(final(loading).entries@) == entries_view(
                        old(loading).entries@,
                    ).push(r@)
                    &&& (entry@.id.len() != 0 ==> r@ == entry@)
                    &&& (entry@.id.len() == 0 ==> r@ == with_id(entry@, r@.id) && r@.id.len() == 36)
                    &&& r@.id.len() != 0
                },
            },
            entries_view(final(loading).entries@) == upserted(entries_view(old(loading).entries@), entry@, r@),
            final(loading).version == old(loading).version,
    {
        let ghost es = entries_view(loading.entries@);
        let mut i: usize = 0;
        while i < loading.entries.len()
            invariant
                i <= loading.entries@.len(),
                loading.entries@ == old(loading).entries@,
                loading.version == old(loading).version,
                es == entries_view(loading.entries@),
                forall|j: int| 0 <= j < i ==> !at_slot(#[trigger] es[j], entry@.working_directory, entry@.target_path),
            decreases loading.entries@.len() - i,
        {
            let candidate = &loading.entries[i];
            let same_dir = paths_equal(candidate.working_directory.as_str(), entry.working_directory.as_str());
            let same_target = chars_eq(&chars_of(candidate.target_path.as_str()), &chars_of(entry.target_path.as_str()));
            assert(es[i as int] == loading.entries@[i as int]@);
            if same_dir && same_target {
                proof { lemma_first_slot_at(es, entry@.working_directory, entry@.target_path, i as int); }
                let mut updated = candidate.duplicate();
                updated.repo_name = entry.repo_name;
                updated.repo_url = entry.repo_url;
                updated.commit_id = entry.commit_id;
                updated.branch = entry.branch;
                updated.subdir = entry.subdir;
                updated.updated_at = entry.updated_at;
                let result = updated.duplicate();
                loading.entries.set(i, updated);
                assert(entries_view(loading.entries@) =~= es.update(i as int, refreshed(es[i as int], entry@)));
                return result;
            }
            i += 1;
        }
        proof { lemma_first_slot_none(es, entry@.working_directory, entry@.target_path); }
        let mut entry = entry;
        if entry.id.as_str().is_empty() {
            entry.id = new_uuid_string();
        }
        let result = entry.duplicate();
        loading.entries.push(entry);
        assert(entries_view(loading.entries@) =~= es.push(result@));
        result
    }

    /// The entries loaded into the workspace `cwd`, in order.
    pub fn loading_entries_for_workspace<'a>(&self, loading: &'a LoadingFile, cwd: &str) -> (r: Vec<&'a LoadingEntry>)
        ensures
            r@.map_values(|e: &LoadingEntry| e@) == workspace_entries(entries_view(loading.entries@), cwd@),
    {
        let ghost es = entries_view(loading.entries@);
        let mut out: Vec<&'a LoadingEntry> = Vec::new();
        let mut i: usize = 0;
        assert(es.skip(0) =~= es);
        while i < loading.entries.len()
            invariant
                i <= loading.entries@.len(),
                es == entries_view(loading.entries@),
                workspace_entries(es, cwd@) == out@.map_values(|e: &LoadingEntry| e@)
                    + workspace_entries(es.skip(i as int), cwd@),
            decreases loading.entries@.len() - i,
        {
            let ghost rest = es.skip(i as int);
            assert(rest[0] == loading.entries@[i as int]@);
            assert(rest.drop_first() =~= es.skip(i + 1));
            let e = &loading.entries[i];
            if paths_equal(e.working_directory.as_str(), cwd) {
                let ghost before = out@.map_values(|e: &LoadingEntry| e@);
                out.push(e);
                assert(out@.map_values(|e: &LoadingEntry| e@) =~= before + seq![rest[0]]);
                assert(before + (seq![rest[0]] + workspace_entries(rest.drop_first(), cwd@)) =~= (
                before + seq![rest[0]]) + workspace_entries(rest.drop_first(), cwd@));
            }
            i += 1;
        }
        assert(es.skip(i as int) =~= Seq::<LoadingEntryView>::empty());
        assert(out@.map_values(|e: &LoadingEntry| e@) + Seq::<LoadingEntryView>::empty() =~= out@.map_values(
            |e: &LoadingEntry| e@,
        ));
        out
    }

    /// Drops the entries loaded at `target_path` in `workspace`; true when any was.
    pub fn remove_loading_entry(&self, loading: &mut LoadingFile, workspace: &str, target_path: &str) -> (removed: bool)
        ensures
            entries_view(final(loading).entries@) == without_slot(
                entries_view(old(loading).entries@),
                workspace@,
                target_path@,
            ),
            removed == (final(loading).entries@.len() != old(loading).entries@.len()),
            final(loading).version == old(loading).version,
    {
        let ghost es = entries_view(loading.entries@);
        let before_len = loading.entries.len();
        let mut kept: Vec<LoadingEntry> = Vec::new();
        let t = chars_of(target_path);
        let mut i: usize = 0;
        assert(es.skip(0) =~= es);
        while i < loading.entries.len()
            invariant
                i <= loading.entries@.len(),
                loading.entries@ == old(loading).entries@,
                loading.version == old(loading).version,
                es == entries_view(loading.entries@),
                t@ == target_path@,
                without_slot(es, workspace@, target_path@) == entries_view(kept@) + without_slot(
                    es.skip(i as int),
                    workspace@,
                    target_path@,
                ),
            decreases loading.entries@.len() - i,
        {
            let ghost rest = es.skip(i as int);
            assert(rest[0] == loading.entries@[i as int]@);
            assert(rest.drop_first() =~= es.skip(i + 1));
            let e = &loading.entries[i];
            let same = paths_equal(e.working_directory.as_str(), workspace) && chars_eq(&chars_of(e.target_path.as_str()), &t);
            if !same {
                let ghost before = entries_view(kept@);
                kept.push(e.duplicate());
                assert(entries_view(kept@) =~= before + seq![rest[0]]);
                assert(before + (seq![rest[0]] + without_slot(rest.drop_first(), workspace@, target_path@)) =~= (
                before + seq![rest[0]]) + without_slot(rest.drop_first(), workspace@, target_path@));
            }
            i += 1;
        }
        assert(es.skip(i as int) =~= Seq::<LoadingEntryView>::empty());
        assert(entries_view(kept@) + Seq::<LoadingEntryView>::empty() =~= entries_view(kept@));
        loading.entries = kept;
        before_len != loading.entries.len()
    }
}

/// Whether the part of `name` after its last `/` is `needle`.
fn last_piece_is(name: &Vec<char>, needle: &Vec<char>) -> (b: bool)
    ensures
        b == (last_piece(name@) == needle@),
{
    let mut j: usize = name.len();
    assert(name@.take(j as int) =~= name@);
    while j > 0 && name[j - 1] != '/'
        invariant
            j <= name.len(),
            last_index_of(name@, '/') == last_index_of(name@.take(j as int), '/'),
        decreases j,
    {
        assert(name@.take(j as int).last() == name@[j - 1]);
        assert(name@.take(j as int).drop_last() =~= name@.take(j - 1));
        j -= 1;
    }
    if j > 0 {
        assert(name@.take(j as int).last() == name@[j - 1]);
        assert(last_index_of(name@, '/') == Some(j - 1));
        let piece = slice_chars(name, j, name.len());
        assert(piece@ =~= name@.skip(j as int));
        chars_eq(&piece, needle)
    } else {
        assert(name@.take(0) =~= Seq::<char>::empty());
        let whole = slice_chars(name, 0, name.len());
        assert(whole@ =~= name@);
        chars_eq(&whole, needle)
    }
}

pub proof fn lemma_first_slot_at(es: Seq<LoadingEntryView>, wd: Seq<char>, target: Seq<char>, i: int)
    requires
        0 <= i < es.len(),
        at_slot(es[i], wd, target),
        forall|j: int| 0 <= j < i ==> !at_slot(#[trigger] es[j], wd, target),
    ensures
        first_slot(es, wd, target) == Some(i),
    decreases i,
{
    if i > 0 {
        assert forall|j: int| 0 <= j < i - 1 implies !at_slot(#[trigger] es.drop_first()[j], wd, target) by {
            assert(es.drop_first()[j] == es[j + 1]);
        }
        lemma_first_slot_at(es.drop_first(), wd, target, i - 1);
    }
}

pub proof fn lemma_first_slot_none(es: Seq<LoadingEntryView>, wd: Seq<char>, target: Seq<char>)
    requires
        forall|j: int| 0 <= j < es.len() ==> !at_slot(#[trigger] es[j], wd, target),
    ensures
        first_slot(es, wd, target) is None,
    decreases es.len(),
{
    if es.len() > 0 {
        assert forall|j: int| 0 <= j < es.drop_first().len() implies !at_slot(#[trigger] es.drop_first()[j], wd, target) by {
            assert(es.drop_first()[j] == es[j + 1]);
        }
        lemma_first_slot_none(es.drop_first(), wd, target);
    }
}

} // verus!
