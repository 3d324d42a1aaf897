//! `grf unload`: which loaded references go, and what is said about it.
use vstd::prelude::*;

use crate::app::load::{dir_entry_spec, dir_gitignore_entry};
use crate::cli::args::UnloadArgs;
use crate::domain::error::{is_repo_not_found, GrfError, Result};
use crate::domain::git_url::decimal;
use crate::domain::model::{LoadingEntry, LoadingEntryView};
use crate::infra::git::u64_decimal;
use crate::infra::store::{entries_view, last_piece, lemma_last_piece_is_tail};
use crate::text::{
    chars_eq, chars_of, concat, ends_with, ends_with_chars, owned, replace_char, replace_char_exec,
    starts_with, starts_with_chars, string_from_chars,
};

verus! {

/// A loaded reference that `n` (already with `/` separators) refers to: by
/// repository name or target, whole or as a `/`-separated tail, or by the last piece
/// of the repository name.
pub open spec fn loaded_entry_matches(e: LoadingEntryView, n: Seq<char>) -> bool {
    ||| e.repo_name == n
    ||| e.target_path == n
    ||| ends_with(e.repo_name, seq!['/'] + n)
    ||| ends_with(e.target_path, seq!['/'] + n)
    ||| last_piece(e.repo_name) == n
}

/// The entries, in order, that `n` refers to.
pub open spec fn loaded_matches(es: Seq<LoadingEntryView>, n: Seq<char>) -> Seq<LoadingEntryView>
    decreases es.len(),
{
    if es.len() == 0 {
        seq![]
    } else if loaded_entry_matches(es[0], n) {
        seq![es[0]] + loaded_matches(es.drop_first(), n)
    } else {
        loaded_matches(es.drop_first(), n)
    }
}

proof fn lemma_loaded_matches_match(es: Seq<LoadingEntryView>, n: Seq<char>)
    ensures
        forall|j: int|
            0 <= j < loaded_matches(es, n).len() ==> loaded_entry_matches(
                #[trigger] loaded_matches(es, n)[j],
                n,
            ),
    decreases es.len(),
{
    if es.len() > 0 {
        lemma_loaded_matches_match(es.drop_first(), n);
        let rest = loaded_matches(es.drop_first(), n);
        if loaded_entry_matches(es[0], n) {
            assert forall|j: int| 0 <= j < loaded_matches(es, n).len() implies loaded_entry_matches(
                #[trigger] loaded_matches(es, n)[j],
                n,
            ) by {
                if j > 0 {
                    assert(loaded_matches(es, n)[j] == rest[j - 1]);
                }
            }
        }
    }
}

proof fn lemma_loaded_matches_complete(es: Seq<LoadingEntryView>, n: Seq<char>, j: int)
    requires
        0 <= j < es.len(),
        loaded_entry_matches(es[j], n),
    ensures
        loaded_matches(es, n).contains(es[j]),
    decreases es.len(),
{
    if j == 0 {
        assert(loaded_matches(es, n)[0] == es[0]);
    } else {
        assert(es.drop_first()[j - 1] == es[j]);
        lemma_loaded_matches_complete(es.drop_first(), n, j - 1);
        let rest = loaded_matches(es.drop_first(), n);
        let k = choose|k: int| 0 <= k < rest.len() && rest[k] == es[j];
        if loaded_entry_matches(es[0], n) {
            assert(loaded_matches(es, n)[k + 1] == rest[k]);
        } else {
            assert(loaded_matches(es, n)[k] == rest[k]);
        }
    }
}

/// `grf unload <n>` selects a loaded reference only at a `/` boundary: `n` is its
/// repository name or target path, or the part of one of them after a `/`; and it
/// selects every reference of which that holds.
pub proof fn law_unload_selects_at_slash_boundaries(es: Seq<LoadingEntryView>, n: Seq<char>)
    ensures
        forall|j: int|
            0 <= j < loaded_matches(es, n).len() ==> {
                let e = #[trigger] loaded_matches(es, n)[j];
                ||| e.repo_name == n
                ||| e.target_path == n
                ||| ends_with(e.repo_name, seq!['/'].add(n))
                ||| ends_with(e.target_path, seq!['/'].add(n))
            },
        forall|j: int|
            0 <= j < es.len() && (es[j].repo_name == n || es[j].target_path == n || ends_with(
                es[j].repo_name,
                seq!['/'].add(n),
            ) || ends_with(es[j].target_path, seq!['/'].add(n))) ==> loaded_matches(es, n).contains(
                #[trigger] es[j],
            ),
{
    assert(seq!['/'].add(n) == seq!['/'] + n);
    lemma_loaded_matches_match(es, n);
    assert forall|j: int| 0 <= j < loaded_matches(es, n).len() implies {
        let e = #[trigger] loaded_matches(es, n)[j];
        ||| e.repo_name == n
        ||| e.target_path == n
        ||| ends_with(e.repo_name, seq!['/'].add(n))
        ||| ends_with(e.target_path, seq!['/'].add(n))
    } by {
        let e = loaded_matches(es, n)[j];
        if last_piece(e.repo_name) == n {
            lemma_last_piece_is_tail(e.repo_name, n);
        }
    }
    assert forall|j: int|
        0 <= j < es.len() && (es[j].repo_name == n || es[j].target_path == n || ends_with(
            es[j].repo_name,
            seq!['/'].add(n),
        ) || ends_with(es[j].target_path, seq!['/'].add(n))) implies loaded_matches(es, n).contains(
        #[trigger] es[j],
    ) by {
        lemma_loaded_matches_complete(es, n, j);
    }
}

fn last_piece_equals(name: &Vec<char>, n: &Vec<char>) -> (b: bool)
    ensures
        b == (last_piece(name@) == n@),
{
    let mut j: usize = name.len();
    assert(name@.take(j as int) =~= name@);
    while j > 0 && name[j - 1] != '/'
        invariant
            j <= name.len(),
            crate::domain::git_url::last_index_of(name@, '/')
                == crate::domain::git_url::last_index_of(name@.take(j as int), '/'),
        decreases j,
    {
        assert(name@.take(j as int).last() == name@[j - 1]);
        assert(name@.take(j as int).drop_last() =~= name@.take(j - 1));
        j -= 1;
    }
    if j > 0 {
        assert(name@.take(j as int).last() == name@[j - 1]);
        let piece = crate::text::slice_chars(name, j, name.len());
        assert(piece@ =~= name@.skip(j as int));
        chars_eq(&piece, n)
    } else {
        let whole = crate::text::slice_chars(name, 0, name.len());
        assert(whole@ =~= name@);
        chars_eq(&whole, n)
    }
}

/// The loaded references that `needle` refers to (`\` read as `/`); `RepoNotFound`
/// naming `needle` when there are none.
pub fn match_loaded_entries(entries: &[LoadingEntry], needle: &str) -> (r: Result<Vec<LoadingEntry>>)
    ensures
        ({
            let m = loaded_matches(
                entries@.map_values(|e: LoadingEntry| e@),
                replace_char(needle@, '\\', '/'),
            );
            &&& m.len() == 0 ==> (r matches Err(e) && is_repo_not_found(e, needle@))
            &&& m.len() > 0 ==> (r matches Ok(v) && entries_view(v@) == m)
        }),
{
    let ghost es = entries@.map_values(|e: LoadingEntry| e@);
    let n = replace_char_exec(&chars_of(needle), '\\', '/');
    let mut slash_n: Vec<char> = Vec::new();
    slash_n.push('/');
    let slash_n = concat(&slash_n, &n);
    let mut out: Vec<LoadingEntry> = Vec::new();
    let mut i: usize = 0;
    assert(es.skip(0) =~= es);
    assert(entries_view(out@) =~= Seq::<LoadingEntryView>::empty());
    while i < entries.len()
        invariant
            i <= entries@.len(),
            es == entries@.map_values(|e: LoadingEntry| e@),
            n@ == replace_char(needle@, '\\', '/'),
            slash_n@ == seq!['/'] + n@,
            loaded_matches(es, n@) == entries_view(out@) + loaded_matches(es.skip(i as int), n@),
        decreases entries@.len() - i,
    {
        let ghost rest = es.skip(i as int);
        assert(rest[0] == entries@[i as int]@);
        assert(rest.drop_first() =~= es.skip(i + 1));
        let e = &entries[i];
        let name = chars_of(e.repo_name.as_str());
        let target = chars_of(e.target_path.as_str());
        let matched = chars_eq(&name, &n) || chars_eq(&target, &n) || ends_with_chars(&name, &slash_n)
            || ends_with_chars(&target, &slash_n) || last_piece_equals(&name, &n);
        if matched {
            let ghost before = entries_view(out@);
            out.push(e.duplicate());
            assert(entries_view(out@) =~= before + seq![rest[0]]);
            assert(before + (seq![rest[0]] + loaded_matches(rest.drop_first(), n@)) =~= (before
                + seq![rest[0]]) + loaded_matches(rest.drop_first(), n@));
        }
        i += 1;
    }
    assert(es.skip(i as int) =~= Seq::<LoadingEntryView>::empty());
    assert(entries_view(out@) + Seq::<LoadingEntryView>::empty() =~= entries_view(out@));
    if out.len() == 0 {
        return Err(GrfError::RepoNotFound { name: owned(needle) });
    }
    Ok(out)
}

/// What `grf unload` does.
#[derive(Debug)]
pub enum UnloadPlan {
    /// Show the loaded references.
    List,
    /// Remove the empty directories under `.gitreference/`.
    CleanEmpty,
    /// Remove the `selected` references, after asking `prompt` when there is one.
    Remove { selected: Vec<LoadingEntry>, prompt: Option<String> },
}

/// The question asked before references are removed.
pub open spec fn unload_prompt_spec(all: bool, count: nat) -> Seq<char> {
    if all {
        "Remove all loaded references from the current workspace?"@
    } else {
        "Remove "@ + decimal(count) + " loaded reference(s)?"@
    }
}

/// Decides what `grf unload` does with the references loaded in the workspace:
/// `--list` and `--clean-empty` first; then `NoLoadedReferences` when there are
/// none; then all of them with `--all`, else those the name refers to
/// (`InvalidArgument` without a name); a question unless `--force`.
pub fn plan_unload(args: &UnloadArgs, workspace_entries: &[LoadingEntry]) -> (r: Result<UnloadPlan>)
    ensures
        args.list ==> r matches Ok(UnloadPlan::List),
        !args.list && args.clean_empty ==> r matches Ok(UnloadPlan::CleanEmpty),
        !args.list && !args.clean_empty && workspace_entries@.len() == 0 ==> r matches Err(
            GrfError::NoLoadedReferences,
        ),
        !args.list && !args.clean_empty && workspace_entries@.len() > 0 && args.all ==> (r matches Ok(
            UnloadPlan::Remove { selected, prompt },
        ) && entries_view(selected@) == entries_view(workspace_entries@) && (args.force ==> prompt is None)
            && (!args.force ==> (prompt matches Some(p) && p@ == unload_prompt_spec(true, selected@.len())))),
        !args.list && !args.clean_empty && workspace_entries@.len() > 0 && !args.all && args.name is None
            ==> (r matches Err(GrfError::InvalidArgument { message }) && message@
            == "unload 需要指定仓库名称，或使用 --all / --list。"@),
        !args.list && !args.clean_empty && workspace_entries@.len() > 0 && !args.all && args.name is Some
            ==> ({
            let m = loaded_matches(
                entries_view(workspace_entries@),
                replace_char(args.name->Some_0@, '\\', '/'),
            );
            &&& m.len() == 0 ==> (r matches Err(e) && is_repo_not_found(e, args.name->Some_0@))
            &&& m.len() > 0 ==> (r matches Ok(UnloadPlan::Remove { selected, prompt }) && entries_view(
                selected@,
            ) == m && (args.force ==> prompt is None) && (!args.force ==> (prompt matches Some(p)
                && p@ == unload_prompt_spec(false, selected@.len()))))
        }),
{
    if args.list {
        return Ok(UnloadPlan::List);
    }
    if args.clean_empty {
        return Ok(UnloadPlan::CleanEmpty);
    }
    if workspace_entries.len() == 0 {
        return Err(GrfError::NoLoadedReferences);
    }
    let selected = if args.all {
        copy_entries(workspace_entries)
    } else {
        match &args.name {
            Some(name) => {
                assert(workspace_entries@.map_values(|e: LoadingEntry| e@) == entries_view(
                    workspace_entries@,
                ));
                match_loaded_entries(workspace_entries, name.as_str())?
            },
            None => {
                return Err(
                    GrfError::InvalidArgument {
                        message: owned("unload 需要指定仓库名称，或使用 --all / --list。"),
                    },
                );
            },
        }
    };
    let prompt = if args.force {
        None
    } else {
        Some(unload_prompt(args.all, selected.len()))
    };
    Ok(UnloadPlan::Remove { selected, prompt })
}

fn copy_entries(es: &[LoadingEntry]) -> (r: Vec<LoadingEntry>)
    ensures
        entries_view(r@) == entries_view(es@),
{
    let mut r: Vec<LoadingEntry> = Vec::new();
    let mut i: usize = 0;
    while i < es.len()
        invariant
            i <= es@.len(),
            r@.len() == i,
            forall|j: int| 0 <= j < i ==> #[trigger] r@[j]@ == es@[j]@,
        decreases es@.len() - i,
    {
        r.push(es[i].duplicate());
        i += 1;
    }
    assert(entries_view(r@) =~= entries_view(es@));
    r
}

/// The question asked before references are removed.
pub fn unload_prompt(all: bool, count: usize) -> (p: String)
    ensures
        p@ == unload_prompt_spec(all, count as nat),
{
    if all {
        owned("Remove all loaded references from the current workspace?")
    } else {
        let head = concat(&chars_of("Remove "), &u64_decimal(count as u64));
        string_from_chars(&concat(&head, &chars_of(" loaded reference(s)?")))
    }
}

/// The `.gitignore` entry to take out once a reference at `target_path` is gone.
pub open spec fn entry_to_clean_spec(target_path: Seq<char>) -> Option<Seq<char>> {
    if starts_with(target_path, ".gitreference/"@) {
        None
    } else {
        Some(dir_entry_spec(target_path))
    }
}

/// The `.gitignore` entries that a load without `--no-ignore` ensures are
/// `.gitreference/` and the entry that unloading the same target takes out.
pub proof fn law_unload_cleans_what_load_added(target_relative: Seq<char>)
    ensures
        crate::app::load::load_gitignore_entries_spec(false, target_relative) == seq![".gitreference/"@]
            + match entry_to_clean_spec(target_relative) {
            Some(e) => seq![e],
            None => Seq::<Seq<char>>::empty(),
        },
{
    if starts_with(target_relative, ".gitreference/"@) {
        assert(seq![".gitreference/"@] + Seq::<Seq<char>>::empty() =~= seq![".gitreference/"@]);
    } else {
        assert(seq![".gitreference/"@] + seq![dir_entry_spec(target_relative)] =~= seq![
            ".gitreference/"@,
            dir_entry_spec(target_relative),
        ]);
    }
}

/// The `.gitignore` entry to take out once a reference at `target_path` is gone:
/// its directory entry, unless it lay under `.gitreference/` (covered by that
/// directory's own entry).
pub fn gitignore_entry_to_clean(target_path: &str) -> (e: Option<String>)
    ensures
        e.deep_view() == entry_to_clean_spec(target_path@),
{
    if starts_with_chars(&chars_of(target_path), &chars_of(".gitreference/")) {
        None
    } else {
        Some(dir_gitignore_entry(target_path))
    }
}

/// `Removed <path>`.
pub fn removed_line(path: &str) -> (l: String)
    ensures
        l@ == "Removed "@ + path@,
{
    string_from_chars(&concat(&chars_of("Removed "), &chars_of(path)))
}

/// `Removed <n> empty directories.`
pub fn pruned_line(n: usize) -> (l: String)
    ensures
        l@ == "Removed "@ + decimal(n as nat) + " empty directories."@,
{
    let head = concat(&chars_of("Removed "), &u64_decimal(n as u64));
    string_from_chars(&concat(&head, &chars_of(" empty directories.")))
}

} // verus!
