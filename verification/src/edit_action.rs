use vstd::prelude::*;

verus! {

/// One edit operation, anchored at an output cursor position.
///
/// `Add(position, content)` inserts `content` before output cursor `position`;
/// `Delete(position)` removes the element currently at output cursor
/// `position`. A position counts the matched (unedited) elements consumed so
/// far by a consumer scanning the original sequence, not a raw input index.
#[derive(PartialEq, Debug)]
pub enum EditAction {
    Add(usize, String),
    Delete(usize),
}

impl EditAction {
    /// The anchor position of this action.
    pub open spec fn anchor(self) -> usize {
        match self {
            EditAction::Add(idx, _) => idx,
            EditAction::Delete(idx) => idx,
        }
    }

    /// Accessor for the anchor position, used by a downstream renderer to
    /// merge the action stream against the original sequence in cursor order.
    pub fn index(&self) -> (r: &usize)
        ensures
            *r == self.anchor(),
    {
        match self {
            EditAction::Add(idx, _) => idx,
            EditAction::Delete(idx) => idx,
        }
    }
}

} // verus!
