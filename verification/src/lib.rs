pub mod app;
pub mod cli;
pub mod domain;
pub mod infra;
pub mod text;
pub mod ui;
