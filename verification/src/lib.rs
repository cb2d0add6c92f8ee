//! Core logic of an options-trading journal bot: parsing of user input,
//! the per-user book of positions, contract edits and CSV export rows.
pub mod book;
pub mod chat;
pub mod commands;
pub mod date;
pub mod export;
pub mod forms;
pub mod position;
pub mod text;
pub mod time;
