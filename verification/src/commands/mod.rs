//! The commands.

pub mod cat;
pub mod count;
pub mod dedup;
pub mod discover;
pub mod discover_answers;
pub mod discover_counts;
pub mod export;
pub mod export_rows;
pub mod export_values;
pub mod filter;
pub mod join;
pub mod split;
pub mod stats;
pub mod view;
