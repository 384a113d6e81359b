//! Verified core of a system monitor that turns periodic metric samples into
//! candlestick (K-line) windows.

pub mod text;
pub mod database;
pub mod aggregator;
pub mod commands;
pub mod collector;
