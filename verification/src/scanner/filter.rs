//! Process-filtering policies for the scanner.

pub mod default;
