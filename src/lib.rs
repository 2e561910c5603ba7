//! Reads a work schedule out of a grid of typed cells and classifies each
//! employee's days.

pub mod config;
pub mod date;
pub mod day;
pub mod grid;
pub mod record;
pub mod schedule;
pub mod text;

pub use config::Config;
pub use schedule::process_schedule;
