//! The core of `timeit`, a command timing utility: reading durations and the command
//! line, formatting durations, summarising measured runs, and the order of warmup,
//! cooldown and measured runs. Every function here carries a contract proved by Verus.
//!
//! - `text`: characters, trimming, case folding, owned strings.
//! - `decimal`: rendering and reading decimal digits.
//! - `format`: smart-unit and decimal display of durations.
//! - `parse`: reading durations such as `30s` or `1.5ms`.
//! - `stats`: average, median, minimum and maximum of measured runs.
//! - `profile`: `key=value` profile files.
//! - `cli`: the command line, read as a sequence of steps.
//! - `run`: starting commands, failure messages, and a timing session.
//! - `laws`: properties relating formatting and reading.

pub mod text;
pub mod decimal;
pub mod format;
pub mod stats;
pub mod parse;
pub mod laws;
pub mod profile;
pub mod cli;
pub mod run;
