//! A line-oriented stream filter that collapses consecutive duplicate lines,
//! in the manner of the classic `uniq` utility.
//!
//! Lines are byte sequences that keep their original trailing terminator.
//! Two lines belong to the same run when they compare equal after a single
//! trailing terminator (`\n` or `\r\n`) is stripped; each maximal run is
//! emitted once, either as the exact text of the line that opened it, or,
//! in count mode, prefixed by its repetition count right-aligned in a field
//! of width four followed by one space.
//!
//! Reading lines and writing records is left to the surrounding program;
//! this crate holds the aggregation and formatting logic, verified.

pub mod config;
pub mod engine;
pub mod line;
pub mod render;
pub mod runs;
