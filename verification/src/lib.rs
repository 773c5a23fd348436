//! Encoding validation and mojibake detection for text files.

pub mod charset;

pub mod text;
pub mod detect;
pub mod mojibake;
pub mod git;
pub mod output;
pub mod validate;
