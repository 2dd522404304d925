//! Fish-style autosuggestion and per-directory shell history.

pub mod clock;
pub mod commands;
pub mod db;
pub mod integration;
pub mod paths;
pub mod report;
pub mod search;
mod sqlite;
pub mod suggest;
pub mod text;
