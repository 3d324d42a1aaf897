//! The options of each `grf` command.
use vstd::prelude::*;

use crate::domain::model::clone_opt;
use crate::infra::git::CloneOptions;

verus! {

/// A `grf` invocation: which command, with its options.
#[derive(Debug)]
pub struct Cli {
    pub command: Commands,
}

/// The commands of `grf`.
#[derive(Debug)]
pub enum Commands {
    Add(AddArgs),
    Clean(CleanArgs),
    List(ListArgs),
    Load(LoadArgs),
    Unload(UnloadArgs),
    Update(UpdateArgs),
}

/// `grf add <url>`.
#[derive(Debug, Clone)]
pub struct AddArgs {
    pub url: String,
    pub name: Option<String>,
    pub branch: Option<String>,
    pub shallow: bool,
    pub no_shallow: bool,
    pub depth: Option<u32>,
}

impl AddArgs {
    /// How the repository is cloned: shallow unless `--no-shallow` is given.
    pub fn clone_options(&self) -> (o: CloneOptions)
        ensures
            o.branch.deep_view() == self.branch.deep_view(),
            o.shallow == !self.no_shallow,
            o.depth == self.depth,
    {
        CloneOptions { branch: clone_opt(&self.branch), shallow: !self.no_shallow, depth: self.depth }
    }
}

/// `grf clean [name] [--all] [--force]`.
#[derive(Debug, Clone)]
pub struct CleanArgs {
    pub name: Option<String>,
    pub all: bool,
    pub force: bool,
}

/// `grf list [--json] [--load] [--verbose]`.
#[derive(Debug, Clone)]
pub struct ListArgs {
    pub json: bool,
    pub load: bool,
    pub verbose: bool,
}

/// `grf load <name> [path] [--subdir] [--no-ignore] [--branch]`.
#[derive(Debug, Clone)]
pub struct LoadArgs {
    pub name: String,
    pub path: Option<String>,
    pub subdir: Option<String>,
    pub no_ignore: bool,
    pub branch: Option<String>,
}

/// `grf unload [name] [--all] [--force] [--list] [--keep-empty] [--clean-empty] [--verbose]`.
#[derive(Debug, Clone)]
pub struct UnloadArgs {
    pub name: Option<String>,
    pub all: bool,
    pub force: bool,
    pub list: bool,
    pub keep_empty: bool,
    pub clean_empty: bool,
    pub verbose: bool,
}

/// `grf update [name] [--check] [--status] [--sync] [--sync-only] [--force]`.
#[derive(Debug, Clone)]
pub struct UpdateArgs {
    pub name: Option<String>,
    pub check: bool,
    pub status: bool,
    pub sync: bool,
    pub sync_only: bool,
    pub force: bool,
}

} // verus!
