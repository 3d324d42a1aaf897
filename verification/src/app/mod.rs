pub mod add;
pub mod load;
pub mod unload;
pub mod update;
pub mod clean;
pub mod list;
