//! A distraction-free writing editor's document model: tabs, find and
//! replace, statistics, Markdown handling and the editor state machine.
use vstd::prelude::*;

pub mod text;
pub mod markdown;
pub mod search;
pub mod settings;
pub mod stats;
pub mod tab;
pub mod writer;
pub mod session;
pub mod numbers;
pub mod editing;
pub mod assistant;
pub mod keys;
pub mod preview;
pub mod frequency;
pub mod export;
pub mod highlight;

verus! {
} // verus!
