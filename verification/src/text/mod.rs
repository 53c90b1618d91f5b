//! Verified text primitives shared by every other module.
pub mod bytes;
pub mod chars;
pub mod encoding;
pub mod numbers;
pub mod order;
pub mod readback;
pub mod seqs;
pub mod str_set;
pub mod strings;
pub mod tally;
pub mod text_rules;
