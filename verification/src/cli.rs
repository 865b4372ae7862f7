//! Decisions of the command line.
pub mod command;
pub mod given;
pub mod manner;
pub mod outcome;
pub mod report;
pub mod request;
pub mod settings;
pub mod tables;
