//! Handles and the item capability interface of the single-column engine.

use vstd::prelude::*;

verus! {

/// An opaque handle identifying one node inside one arena instance.  Valid
/// only in the arena that issued it; equality and hashing go by the
/// underlying integer.
#[derive(Copy, Clone, PartialEq, Eq, Structural, Hash, Debug)]
pub struct Index(pub usize);

/// The capability interface a node exposes to the tree engine: report its
/// children, its own handle and rank among its siblings, its parent, and a
/// display label.
pub trait TreeItem {
    /// The per-column datum a node can hand out.
    type Data;

    /// The node's child handles, in order, as a mathematical sequence.
    spec fn spec_children(&self) -> Seq<Index>;

    /// The node's own handle.
    spec fn spec_index(&self) -> Index;

    /// The node's rank among its siblings.
    spec fn spec_child_index(&self) -> int;

    /// The node's parent handle, absent for a root.
    spec fn spec_parent(&self) -> Option<Index>;

    /// The child handle at rank `row`.
    fn child(&self, row: usize) -> (r: Index)
        requires
            row < self.spec_children().len(),
        ensures
            r == self.spec_children()[row as int],
    ;

    /// How many children the node has.
    fn child_count(&self) -> (n: usize)
        ensures
            n == self.spec_children().len(),
    ;

    /// The node's rank among its siblings.
    fn child_index(&self) -> (r: usize)
        ensures
            r == self.spec_child_index(),
    ;

    /// The datum the node shows in the given column.
    fn data(&self, column: usize) -> Self::Data
        requires
            column < self.spec_children().len(),
    ;

    /// The node's parent handle, `None` for a root.
    fn parent(&self) -> (r: Option<Index>)
        ensures
            r == self.spec_parent(),
    ;

    /// The node's own handle.
    fn index(&self) -> (r: Index)
        ensures
            r == self.spec_index(),
    ;

    /// The node's display label.
    fn render(&self) -> &str;
}

} // verus!
