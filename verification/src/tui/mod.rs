//! The menu in a terminal: which program shows it, and what it is fed with.

pub mod backend;
pub mod laws;
pub mod menu;

pub use backend::{parse_version, run, FZF_MIN};
pub use menu::{list_raw, preview_id, search_raw};
pub use menu::{FZF_ID_NTH, FZF_NTH, FZF_ORIGINAL_COLS, FZF_WITH_NTH};
