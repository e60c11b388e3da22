//! Core logic of the Kumo mobile web browser: browser history and URI
//! completion, text input editing, input method state, context menus,
//! per-host engine preferences, downloads, tab groups, configuration values
//! and the bookkeeping of persisted browser state.

pub mod text;
pub mod geometry;
pub mod config;
pub mod settings;
pub mod history;
pub mod history_laws;
pub mod ime;
pub mod text_input;
pub mod keyboard;
pub mod group;
pub mod engine;
pub mod webkit_menu;
pub mod option_menu;
pub mod downloads;
pub mod storage;
pub mod on_demand;
pub mod cli;
