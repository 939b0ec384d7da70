//! Clipboard history for Wayland: the rules, state machines and formats.

pub mod backup;
pub mod cli;
pub mod config;
pub mod confirm;
pub mod daemon;
pub mod gui;
pub mod migrate;
pub mod notify;
pub mod order;
pub mod pattern;
pub mod preview;
pub mod store;
pub mod text;
pub mod tui;
