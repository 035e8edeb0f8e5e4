//! Diff-scoped lint diagnostics: counting, classification, diff parsing,
//! source correspondence and diagnostic pairing.
use vstd::prelude::*;

pub mod text;
pub mod table;
pub mod counts;
pub mod diff_stats;
pub mod disposition;
pub mod diagnostic_level;
pub mod escape;
pub mod verdict;
pub mod exit;
pub mod diff_paths;
pub mod types;
pub mod path_map;
pub mod line_ranges;
pub mod hunk;
pub mod git_path;
pub mod source;
pub mod diff;
pub mod inventory;
pub mod compare;
pub mod compare_laws;
pub mod paths;
pub mod policy;
pub mod json;
pub mod diagnostics;
pub mod cargo_messages;

verus! {
} // verus!
