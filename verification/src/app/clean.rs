//! `grf clean`: which cached repositories are removed.
use vstd::prelude::*;

use crate::cli::args::CleanArgs;
use crate::domain::error::{GrfError, Result};
use crate::domain::model::{ConfigFile, RepoRecord, RepoRecordView};
use crate::infra::store::{resolve_error, resolved, StateStore};
use crate::text::{chars_of, concat, owned, push_string, string_from_chars};

verus! {

/// What `grf clean` does.
#[derive(Debug)]
pub enum CleanPlan {
    /// The cache is empty: nothing to do.
    NothingCached,
    /// Remove every cached repository (these directories), after asking `prompt`
    /// when there is one.
    RemoveAll { paths: Vec<String>, prompt: Option<String> },
    /// Remove one cached repository, after asking `prompt` when there is one.
    RemoveOne { repo: RepoRecord, prompt: Option<String> },
}

/// `Remove cached repository `<name>`?`
pub open spec fn remove_one_prompt_spec(name: Seq<char>) -> Seq<char> {
    "Remove cached repository `"@ + name + "`?"@
}

/// Decides what `grf clean` removes: nothing when the cache is empty; everything with
/// `--all`; otherwise the repository the name resolves to (`InvalidArgument`
/// without a name). A question is asked unless `--force`.
pub fn plan_clean(store: &StateStore, config: &ConfigFile, args: &CleanArgs) -> (r: Result<CleanPlan>)
    ensures
        config.repos@.len() == 0 ==> r matches Ok(CleanPlan::NothingCached),
        config.repos@.len() > 0 && args.all ==> (r matches Ok(CleanPlan::RemoveAll { paths, prompt })
            && paths.deep_view() == config.repos@.map_values(|e: (Seq<char>, RepoRecordView)| e.1.path)
            && (args.force ==> prompt is None) && (!args.force ==> (prompt matches Some(p) && p@
            == "Remove all cached repositories?"@))),
        config.repos@.len() > 0 && !args.all && args.name is None ==> (r matches Err(
            GrfError::InvalidArgument { message },
        ) && message@ == "clean 需要指定仓库名称，或使用 --all。"@),
        config.repos@.len() > 0 && !args.all && args.name is Some ==> match resolved(
            config.repos@,
            args.name->Some_0@,
        ) {
            Some(rec) => r matches Ok(CleanPlan::RemoveOne { repo, prompt }) && repo@ == rec && (args.force
                ==> prompt is None) && (!args.force ==> (prompt matches Some(p) && p@
                == remove_one_prompt_spec(rec.name))),
            None => r matches Err(e) && resolve_error(e, config.repos@, args.name->Some_0@),
        },
{
    if config.repos.is_empty() {
        return Ok(CleanPlan::NothingCached);
    }
    if args.all {
        let records = config.repos.values();
        let mut paths: Vec<String> = Vec::new();
        let mut i: usize = 0;
        while i < records.len()
            invariant
                i <= records@.len(),
                records@.len() == config.repos@.len(),
                forall|j: int| 0 <= j < records@.len() ==> #[trigger] records@[j]@ == config.repos@[j].1,
                paths.deep_view() == config.repos@.take(i as int).map_values(
                    |e: (Seq<char>, RepoRecordView)| e.1.path,
                ),
            decreases records@.len() - i,
        {
            assert(records@[i as int]@ == config.repos@[i as int].1);
            push_string(&mut paths, records[i].path.clone());
            assert(config.repos@.take(i + 1).map_values(|e: (Seq<char>, RepoRecordView)| e.1.path)
                =~= config.repos@.take(i as int).map_values(|e: (Seq<char>, RepoRecordView)| e.1.path).push(
                config.repos@[i as int].1.path,
            ));
            i += 1;
        }
        assert(config.repos@.take(i as int) =~= config.repos@);
        let prompt = if args.force {
            None
        } else {
            Some(owned("Remove all cached repositories?"))
        };
        return Ok(CleanPlan::RemoveAll { paths, prompt });
    }
    let name = match &args.name {
        Some(n) => n,
        None => {
            return Err(GrfError::InvalidArgument { message: owned("clean 需要指定仓库名称，或使用 --all。") });
        },
    };
    let repo = store.resolve_repo(config, name.as_str())?.duplicate();
    let prompt = if args.force {
        None
    } else {
        let head = concat(&chars_of("Remove cached repository `"), &chars_of(repo.name.as_str()));
        Some(string_from_chars(&concat(&head, &chars_of("`?"))))
    };
    Ok(CleanPlan::RemoveOne { repo, prompt })
}

} // verus!
