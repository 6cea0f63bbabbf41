//! Verified core of the Flugs spectra viewer: the Opus header reader, the
//! fuzzy file search, the group and file registry, the configuration file
//! format and the small state machines that drive the user interface.

pub mod backend;
pub mod backend_state;
pub mod bruker;
pub mod bytes;
pub mod config;
pub mod config_laws;
pub mod events;
pub mod file_handler;
pub mod group_id;
pub mod handler_laws;
pub mod modes;
pub mod paths;
pub mod search_ui;
pub mod text;
pub mod ui_parameter;
pub mod utils;
