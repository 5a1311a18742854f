//! Detection and removal of machine-generated writing artifacts in text and
//! source files: typographic characters, decorative symbols, filler prose,
//! restating comments, and user-defined phrase rules.

pub mod bindings;
pub mod cli;
pub mod config;
pub mod detector;
pub mod diff;
pub mod engine;
pub mod interactive;
pub mod lsp;
pub mod order;
pub mod report;
pub mod rules;
pub mod scanner;
pub mod text;

use vstd::prelude::*;

verus! {

} // verus!
