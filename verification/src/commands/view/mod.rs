//! The `view` command: what an interactive terminal shows and how it reacts.

pub mod catalog;
pub mod detail;
pub mod field_filter;
pub mod flatten;
pub mod handlers;
pub mod info;
pub mod info_rules;
pub mod key_rules;
pub mod keys;
pub mod line_rules;
pub mod lines;
pub mod order_rules;
pub mod paint;
pub mod paint_rules;
pub mod popups;
pub mod prompts;
pub mod reached;
pub mod render;
pub mod row_rules;
pub mod scan;
pub mod screen_rules;
pub mod shown;
pub mod state;
pub mod style;
pub mod text;
pub mod types;
pub mod updates;
