//! A small line-search library: find the lines of a text that contain a
//! query substring (case-sensitively or not), and split each matching line
//! into matched and unmatched segments for highlighted display.

pub mod config;
pub mod fold;
pub mod lines;
pub mod highlight;
pub mod matcher;
pub mod style;
