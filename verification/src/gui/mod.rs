//! The window: its state, what it shows, and how it reacts.

pub mod app;
pub mod filter;
pub mod instance;
pub mod laws;
pub mod picture;
pub mod search;
pub mod update;
pub mod view;
