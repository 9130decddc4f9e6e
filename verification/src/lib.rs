pub mod error;
pub mod text;
pub mod domain;
pub mod query;
pub mod store;
pub mod actions;
pub mod input;
pub mod keymap;
pub mod state;
pub mod laws;
pub mod themes;
