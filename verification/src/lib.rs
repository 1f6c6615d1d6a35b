//! A terminal to-do list: the item model, the SQLite-backed store, the
//! command-line actions and the decisions of the full-screen interface.

pub mod behaviour;
pub mod cli;
pub mod clock;
pub mod db;
pub mod editor;
pub mod laws;
pub mod layout;
pub mod listing;
pub mod model;
pub mod screen;
pub mod storage;
pub mod text;
pub mod tui;
pub mod width;
