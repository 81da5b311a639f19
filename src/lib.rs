//! Import of delimited transaction exports and aggregation of the
//! transactions into per-group, per-month and per-group-over-time totals.

pub mod calendar;
pub mod groups;
pub mod import;
pub mod laws;
pub mod number;
pub mod record;
pub mod tally;
pub mod text;
