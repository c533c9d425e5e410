//! Backtesting of a price predictor over daily trading data: feature windows
//! and their normalization, a portfolio ledger, the daily simulation step and
//! the attribution of purchased capital by company and month.
//!
//! All amounts are integers. A price or a balance is a number of ticks, the
//! smallest unit of the currency that the caller chooses to track. A
//! normalized value is a fixed-point number with `NORM_SCALE` standing for
//! one.

pub mod book;
pub mod calendar;
pub mod config;
pub mod data_loader;
pub mod engine;
pub mod error;
pub mod fixed_point;
pub mod metric;
pub mod predictor;
pub mod price_data;
