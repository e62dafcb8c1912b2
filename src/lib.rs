//! Collapsing of adjacent duplicate lines, with optional repetition counts.
//!
//! Lines are byte strings that keep their terminator. Two lines belong to the
//! same run when they are equal once trailing `\n` and `\r` bytes are removed;
//! each run is written once, as its first line, optionally after its length.
pub mod config;
pub mod count;
pub mod dedup;
pub mod error;
pub mod lines;
pub mod model;

pub use config::Config;
pub use dedup::run;
