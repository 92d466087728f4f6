//! Skope: a profiler that captures, aggregates and compares benchmark runs.
pub mod analytics;
pub mod cli;
pub mod runner;
pub mod system;
pub mod text;
pub mod ui;
