//! Restructures a monolithic source file into a tree of smaller modules.
//!
//! The pipeline classifies parsed declarations into tagged fragments,
//! merges same-named model fragments, builds a nested module tree that
//! re-exports everything, and plans the files to write.

use vstd::prelude::*;

pub mod code;
pub mod decl;
pub mod dedup;
pub mod fragment;
pub mod module;
pub mod outside;
pub mod props;
pub mod text;

verus! {

/// A parser-reported source location: 1-based line, 0-based column in
/// Unicode scalar units.
#[derive(Clone, Copy, Debug)]
pub struct Loc {
    pub line: usize,
    pub column: usize,
}

} // verus!
