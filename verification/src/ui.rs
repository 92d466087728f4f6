pub mod app;
pub mod chart;
