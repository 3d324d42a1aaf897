pub mod error;
pub mod git_url;
pub mod model;
