//! A CSS-flavoured box-tree library.
//!
//! The crate holds an arena-backed tree of layout boxes with verified
//! structural surgery (splice, detach), the box-generation invariant
//! on child homogeneity with its checker, writing-mode-aware logical
//! geometry, the computed-style snapshot the tree consumes, and the
//! inline-content text pipeline: white-space collapsing and line
//! breaking over Unicode soft-wrap opportunities.

pub mod allocator;
pub mod geometry;
pub mod inline_layout;
pub mod layout_tree;
pub mod line_break;
pub mod style;

use vstd::prelude::*;

verus! {

} // verus!
