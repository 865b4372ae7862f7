//! What anchors a ranking request in its session.
pub mod earlier;
pub mod history;
