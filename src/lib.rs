//! Daily bike-rental summaries and nearest-match forecasting by weather.
//!
//! Hourly records are labelled (`classify`), folded into one summary per
//! date (`model`), linked into a graph of days with equal labels and
//! searched for the day closest to a query (`search`).

pub mod classify;
pub mod common;
pub mod data;
pub mod model;
pub mod report;
pub mod search;
