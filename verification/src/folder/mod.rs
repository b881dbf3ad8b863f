//! Algebraic simplification and folding
//!
//! Turns intermediate representation into concise human-readable form: a
//! trace is unfolded into branchless paths, the paths are merged back along
//! their common prefixes and suffixes, and the merged alternatives become
//! `if` statements again.

pub mod spec;
pub mod paths;
pub mod ors;
pub mod driver;

pub use driver::{fold, as_paths, fold_exp};
