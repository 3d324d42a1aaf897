pub mod gitignore;
pub mod path;
pub mod paths;
pub mod store;
pub mod git;
pub mod fs;
