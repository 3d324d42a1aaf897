//! Where `grf` keeps its state.
use vstd::prelude::*;

use crate::domain::error::{GrfError, Result};
use crate::infra::path::{join, utf8_join};

verus! {

/// The state directory and the files and directories inside it.
#[derive(Debug, Clone)]
pub struct GrfPaths {
    pub root: String,
    pub repos_root: String,
    pub config_path: String,
    pub loading_path: String,
}

impl GrfPaths {
    /// The layout under the state directory `root`: `repos/`, `config.v2.json` and
    /// `loading.v2.json`.
    pub fn from_root(root: String) -> (p: Self)
        ensures
            p.root@ == root@,
            p.repos_root@ == utf8_join(root@, "repos"@),
            p.config_path@ == utf8_join(root@, "config.v2.json"@),
            p.loading_path@ == utf8_join(root@, "loading.v2.json"@),
    {
        let repos_root = join(root.as_str(), "repos");
        let config_path = join(root.as_str(), "config.v2.json");
        let loading_path = join(root.as_str(), "loading.v2.json");
        GrfPaths { root, repos_root, config_path, loading_path }
    }

    /// The layout under `root` as `from_root` lays it out.
    pub open spec fn laid_out_under(self, root: Seq<char>) -> bool {
        &&& self.root@ == root
        &&& self.repos_root@ == utf8_join(root, "repos"@)
        &&& self.config_path@ == utf8_join(root, "config.v2.json"@)
        &&& self.loading_path@ == utf8_join(root, "loading.v2.json"@)
    }

    /// Where the state lives: under the directory that `GRF_ROOT_DIR` names when it
    /// is set, else under `.gitreference` in the home directory; `HomeDirUnavailable`
    /// when neither is known.
    pub fn discover_from(root_override: Option<String>, home: Option<String>) -> (r: Result<Self>)
        ensures
            match root_override {
                Some(root) => r matches Ok(p) && p.laid_out_under(root@),
                None => match home {
                    Some(h) => r matches Ok(p) && p.laid_out_under(utf8_join(h@, ".gitreference"@)),
                    None => r matches Err(GrfError::HomeDirUnavailable),
                },
            },
    {
        match root_override {
            Some(root) => Ok(GrfPaths::from_root(root)),
            None => match home {
                Some(h) => Ok(GrfPaths::from_root(join(h.as_str(), ".gitreference"))),
                None => Err(GrfError::HomeDirUnavailable),
            },
        }
    }

    /// The directory inside a workspace that references are loaded into by default.
    pub fn workspace_root(cwd: &str) -> (p: String)
        ensures
            p@ == utf8_join(cwd@, ".gitreference"@),
    {
        join(cwd, ".gitreference")
    }
}

} // verus!
