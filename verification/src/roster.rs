//! Skills that a harness offers.
pub mod discovery;
pub mod frontmatter;
pub mod resolution;
pub mod retrieval;
pub mod terms;
