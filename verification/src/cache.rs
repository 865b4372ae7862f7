//! Response cache contracts.
pub mod coordination;
pub mod turns;
