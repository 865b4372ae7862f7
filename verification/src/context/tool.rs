//! Tool evidence of a session.
pub mod association;
pub mod calls;
pub mod dispatch;
