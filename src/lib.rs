//! Match summaries from Quake 3 style server logs.
//!
//! Log lines are turned into events by a stateful parser, and events are
//! folded into per-match scoreboards by a summary processor.

pub mod text;
pub mod ids;
pub mod delimited;
pub mod event;
pub mod parser;
pub mod summary;
pub mod reader;
