//! Finding new releases: where to look, how versions compare, and what a check reports.

pub mod check;
pub mod config;
pub mod versions;
