//! Space-mission log analysis: parse a pipe-delimited mission log, keep the
//! completed missions bound for Mars, and report the mission(s) with the
//! longest recorded duration.

pub mod analyzer;
pub mod cli;
pub mod parser;
pub mod text;
