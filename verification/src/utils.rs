//! The diff model and the configuration records.

pub mod config_manager;
pub mod diff_parser;
pub mod diff_theory;
