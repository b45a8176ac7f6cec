//! Run-editing and comparison-derivation engine of a speedrun timer.
//!
//! Times are held as whole milliseconds. A run is an ordered list of
//! segments, each with named comparison times per timing method.

pub mod codec;
pub mod config;
pub mod delta;
pub mod edit;
pub mod editor;
pub mod label;
pub mod rows;
pub mod run;
pub mod segment_time;
pub mod table;
