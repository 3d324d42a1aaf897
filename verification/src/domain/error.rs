//! The library's error type.
use vstd::prelude::*;

verus! {

/// `std::io::Error`, carried as the source of the I/O variants.
#[verifier::external_type_specification]
#[verifier::external_body]
pub struct ExIoError(std::io::Error);

/// `serde_json::Error`, carried as the source of `GrfError::JsonParse`.
#[verifier::external_type_specification]
#[verifier::external_body]
pub struct ExJsonError(serde_json::Error);

/// Everything that can go wrong in a `grf` command.
#[derive(Debug)]
pub enum GrfError {
    GitNotFound,
    GitCommandFailed { command: String, stderr: String },
    RepoNotFound { name: String },
    RepoAlreadyExists { name: String },
    AmbiguousRepoName { name: String, matches: Vec<String> },
    InvalidGitUrl { url: String },
    PathNotFound { path: String },
    MissingSubdir { repo: String, subdir: String },
    NoRepositories,
    NoLoadedReferences,
    JsonParse { path: String, source: serde_json::Error },
    Io { path: String, source: std::io::Error },
    WriteIo { path: String, source: std::io::Error },
    HomeDirUnavailable,
    NonUtf8Path { path: String },
    InvalidArgument { message: String },
    Cancelled,
}

pub type Result<T> = std::result::Result<T, GrfError>;

impl GrfError {
    /// A failed read of `path`.
    pub fn io_read(path: String, source: std::io::Error) -> (e: Self)
        ensures
            e matches GrfError::Io { path: p, .. } && p@ == path@,
    {
        GrfError::Io { path, source }
    }

    /// A failed write of `path`.
    pub fn io_write(path: String, source: std::io::Error) -> (e: Self)
        ensures
            e matches GrfError::WriteIo { path: p, .. } && p@ == path@,
    {
        GrfError::WriteIo { path, source }
    }
}

/// `e` reports `url` as an invalid Git URL.
pub open spec fn is_invalid_url(e: GrfError, url: Seq<char>) -> bool {
    e matches GrfError::InvalidGitUrl { url: u } && u@ == url
}

/// `e` reports `name` as an unknown repository.
pub open spec fn is_repo_not_found(e: GrfError, name: Seq<char>) -> bool {
    e matches GrfError::RepoNotFound { name: n } && n@ == name
}

/// `e` reports `name` as an existing repository.
pub open spec fn is_already_exists(e: GrfError, name: Seq<char>) -> bool {
    e matches GrfError::RepoAlreadyExists { name: n } && n@ == name
}

} // verus!
