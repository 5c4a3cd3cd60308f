//! A log tail viewer's decision logic.

pub mod buffer;
pub mod cli;
pub mod config;
pub mod dates;
pub mod display_laws;
pub mod enabled_files;
pub mod filling_laws;
pub mod formatting;
pub mod gui;
pub mod gui_theme;
pub mod key_laws;
pub mod line_rules;
pub mod lines;
pub mod order;
pub mod path_laws;
pub mod path_table;
pub mod paths;
pub mod pattern_laws;
pub mod poll_laws;
pub mod reading_laws;
pub mod repeat_laws;
pub mod resolver;
pub mod rollover_laws;
pub mod screen_laws;
pub mod setting_laws;
pub mod snapshot;
pub mod suggestion_laws;
pub mod switch_laws;
pub mod text;
pub mod text_laws;
pub mod token_laws;
pub mod tracking;
pub mod tui_theme;
pub mod ui;
pub mod view_laws;
pub mod watcher;
pub mod watcher_laws;
pub mod wildcard;
pub mod window_laws;
