//! Handle types shared with the column-generic face of the engine, and the
//! focus state a view carries.

use vstd::prelude::*;
use crate::tree::Index;

verus! {

/// A handle identifying one row of a tree model.
#[derive(Clone, Copy, PartialEq, Eq, Structural, Hash, Debug)]
pub struct RowRef(pub usize);

/// A rank among the children of one node (or among the roots).
#[derive(Clone, Copy, PartialEq, Eq, Structural, Hash, Debug)]
pub struct ChildRef(pub usize);

impl ChildRef {
    /// The rank `rhs` places to the right.
    pub fn add(self, rhs: usize) -> (r: ChildRef)
        requires
            self.0 + rhs <= usize::MAX,
        ensures
            r.0 == self.0 + rhs,
    {
        ChildRef(self.0 + rhs)
    }

    /// The rank `rhs` places to the left.
    pub fn sub(self, rhs: usize) -> (r: ChildRef)
        requires
            rhs <= self.0,
        ensures
            r.0 == self.0 - rhs,
    {
        ChildRef(self.0 - rhs)
    }
}

/// A counter that stamps each rebuild of a model, so a view can tell stale
/// state from fresh.
#[derive(Clone, Copy, PartialEq, Eq, PartialOrd, Ord, Structural, Debug)]
pub struct Generation(pub usize);

impl Generation {
    /// Step to the next generation.
    pub fn inc(&mut self)
        requires
            old(self).0 < usize::MAX,
        ensures
            final(self).0 == old(self).0 + 1,
    {
        self.0 += 1;
    }
}

/// The focus state of a view: the currently selected node, if any.
#[derive(Clone, Copy, PartialEq, Eq, Structural, Debug)]
pub struct Focus {
    pub row: Option<Index>,
}

impl Default for Focus {
    /// A fresh view starts with nothing focused.
    fn default() -> (r: Self)
        ensures
            r.row is None,
    {
        Focus { row: None }
    }
}

} // verus!
