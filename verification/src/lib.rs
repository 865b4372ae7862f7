//! Decision logic of SkillRanker, stated and proved.
//!
//! Every module holds executable functions with exact contracts over
//! mathematical models. Effects live in the application around the library.
use vstd::prelude::*;

pub mod cache;
pub mod chars;
pub mod cli;
pub mod context;
pub mod evaluation;
pub mod identity;
pub mod jev;
pub mod json;
pub mod names;
pub mod output;
pub mod pipeline;
pub mod roster;
pub mod runtime;
pub mod score;
pub mod text;
pub mod wording;

verus! {

} // verus!
