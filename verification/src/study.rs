//! The analysis subjects: the small self-contained programs whose bodies
//! the driver measures.

pub mod db;
pub mod allocator;
pub mod cli;
pub mod eval;
pub mod grep;
pub mod median;
pub mod progress;
pub mod regex;
pub mod url;
