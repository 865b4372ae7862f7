//! The two-stage ranking pipeline.
pub mod candidate_set;
pub mod candidates;
pub mod choosing;
pub mod consequences;
pub mod course;
pub mod document;
pub mod failure;
pub mod flow;
pub mod listing;
pub mod progress;
pub mod publication;
pub mod reports;
pub mod reuse;
pub mod trace;
pub mod verdicts;
