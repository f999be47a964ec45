//! Guided examples accompanying the analysis: a CLI builder, tabular
//! data processing, a progress bar and a small personnel record.

pub mod cli;
pub mod countries;
pub mod progress;
pub mod tutorial;
