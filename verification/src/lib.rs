//! Evidence-based scheduling: build empirical velocity and buffer
//! distributions from historical task records, run a Monte Carlo simulation
//! over the remaining backlog, extract percentile forecasts, and project the
//! result onto a business-day calendar.

pub mod calendar;
pub mod dists;
pub mod ebs;
pub mod fixed;
pub mod loader;
pub mod percentile;
pub mod records;
pub mod sim;
pub mod sort;
