//! A personal weight log: timestamped readings kept in chronological order,
//! a moving average over them, and the expansion of a leading `~` in the
//! paths of the configuration.

pub mod config;
pub mod decimal;
pub mod records;
pub mod shell;
pub mod sorting;
pub mod timestamp;
pub mod weight;
