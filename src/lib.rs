//! Indexes a directory tree, keeps per-node selection state, and renders the
//! selected files into one formatted document.
use vstd::prelude::*;

pub mod analysis;
pub mod config;
pub mod generator;
pub mod models;
pub mod persist;
pub mod scanner;
pub mod sort;
pub mod state;
pub mod text;
pub mod tree;
pub mod ui;

verus! {

} // verus!
