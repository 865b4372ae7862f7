//! Offline evaluation of recorded decisions.
pub mod batch;
pub mod explanation;
pub mod telling;
pub mod totals;
