//! Offline toolbox for `.logjet` telemetry streams: deduplication, filtering,
//! discovery, export, and the state machine behind the interactive viewer.
pub mod block;
pub mod block_format;
pub mod bridge;
pub mod cli;
pub mod commands;
pub mod dataset;
pub mod dataset_index;
pub mod dedup;
pub mod error;
pub mod exporter;
pub mod index_rules;
pub mod input_rules;
pub mod json;
pub mod otlp;
pub mod plugin_rules;
pub mod predicate;
pub mod record;
pub mod selection;
pub mod text;
