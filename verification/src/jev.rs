//! The ranking provider: where it is, and what may be asked of it.
pub mod accounts;
pub mod admission;
pub mod endpoint;
pub mod numerals;
pub mod punycode;
