//! A minimal line-based diff engine: the Myers middle-snake algorithm in its
//! linear-space, divide-and-conquer form.
//!
//! Given two sequences of equality-comparable elements, `myers_diff` produces
//! an ordered list of [`EditAction`]s (insertions and deletions) that turns the
//! first sequence into the second. The edit-script semantics — what it means to
//! apply such a list — lives in [`script`], and `myers_diff` is verified to
//! produce scripts that reproduce the target sequence under those semantics.

pub mod edit_action;
pub mod edit_graph;
pub mod lcs;
pub mod myers_diff;
pub mod script;

pub use edit_action::EditAction;
pub use edit_graph::{EditGraph, MiddleSnake};
pub use myers_diff::myers_diff;
pub use script::apply_edit_actions;
