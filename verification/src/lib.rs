//! A small verified bookmark store: titled, tagged URLs with unique ids,
//! case-insensitive lookup and substring search.

pub mod cli;
pub mod commands;
pub mod laws;
pub mod models;
pub mod text;
