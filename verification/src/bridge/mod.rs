//! The only places where code of other crates is called.
pub mod debug_text;
pub mod hashing;
pub mod json_text;
pub mod lowercase;
pub mod paths;
pub mod patterns;
pub mod protobuf;
pub mod shell;
pub mod timestamps;
pub mod utf8;
