//! Picking co-authors for the last commit from a searchable list.
pub mod text;
pub mod finder;
pub mod config;
pub mod format;
