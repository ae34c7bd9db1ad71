//! Duplicate-file scan engine.
//!
//! The library groups candidate files by cheap signals (size and extension,
//! or normalized audio metadata), confirms duplicates with additive
//! checksums, and reports results through an append-only message channel.

pub mod file_utils;
pub mod grouping;
pub mod lofty_utils;
pub mod mediatype;
pub mod messenger;
pub mod report;
pub mod scanner;
pub mod string_utils;
pub mod ui_state;
