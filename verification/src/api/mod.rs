//! Answers of the HTTP surface, made from what a daemon replied.

pub mod error;
pub mod lfm2;
