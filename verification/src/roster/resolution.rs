//! Which discovered names may be offered.
pub mod absence;
pub mod discovery_scope;
pub mod name_budget;
pub mod pauses;
