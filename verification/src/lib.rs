//! A personal task tracker: an ordered list of tasks, addressed by their
//! one-based position, and its representation as a markdown checklist.

pub mod cli;
pub mod config;
pub mod group;
pub mod listing;
pub mod markdown;
pub mod round_trip;
pub mod task;
pub mod text;
