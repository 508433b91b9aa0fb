//! The arena that backs a symbol-outline tree: a flat store of nodes that
//! reference one another by index, together with its well-formedness model.

use vstd::prelude::*;
use crate::symbol::{SymbolInfo, SymbolInfoView};
use crate::tree::{Index, TreeItem};

verus! {

/// One node of the arena: its payload, the handles of its children, its own
/// handle, its rank among its siblings, and its parent's handle.
#[derive(Debug)]
pub struct Item {
    pub item: SymbolInfo,
    pub children: Vec<Index>,
    pub ix: Index,
    pub child_ix: usize,
    pub parent: Option<Index>,
}

/// The arena of one outline tree: all nodes in a flat store, indexed by the
/// integer inside their [`Index`], plus the ordered list of root handles.
#[derive(Debug)]
pub struct LspTreeModel {
    pub roots: Vec<Index>,
    pub lsp_items: Vec<Item>,
}

/// Every child handle points strictly forward: to a node after its parent
/// and inside the store.  This is what pre-order index assignment guarantees,
/// and it is what makes walking down the tree terminate.
pub open spec fn kids_bounded(items: Seq<Item>) -> bool {
    forall|i: int, j: int|
        0 <= i < items.len() && 0 <= j < items[i].children@.len() ==> {
            let c = (#[trigger] items[i].children@[j]).0;
            i < c && c < items.len()
        }
}

/// The forest invariant: every handle stored in a node resolves inside the
/// same store, a node's recorded rank finds it in its parent's child list
/// (or in the root list when it has no parent), and child lists point back
/// at their owner.
pub open spec fn links_ok(items: Seq<Item>, roots: Seq<Index>) -> bool {
    &&& forall|i: int| 0 <= i < items.len() ==> (#[trigger] items[i]).ix == Index(i as usize)
    &&& forall|i: int, j: int|
        0 <= i < items.len() && 0 <= j < items[i].children@.len() ==> {
            let c = (#[trigger] items[i].children@[j]).0 as int;
            &&& items[c].parent == Some(Index(i as usize))
            &&& items[c].child_ix == j
        }
    &&& forall|i: int|
        0 <= i < items.len() ==> match (#[trigger] items[i]).parent {
            Some(p) => {
                &&& p.0 < i
                &&& items[i].child_ix < items[p.0 as int].children@.len()
                &&& items[p.0 as int].children@[items[i].child_ix as int] == Index(i as usize)
            },
            None => {
                &&& items[i].child_ix < roots.len()
                &&& roots[items[i].child_ix as int] == Index(i as usize)
            },
        }
    &&& forall|r: int|
        0 <= r < roots.len() ==> {
            let x = (#[trigger] roots[r]).0 as int;
            &&& x < items.len()
            &&& items[x].parent is None
            &&& items[x].child_ix == r
        }
}

/// The index one past the last node of the subtree rooted at `i`, read off
/// the child lists: a leaf's subtree ends right after it, and any other
/// subtree ends where the subtree of its last child ends.
pub open spec fn sub_end(items: Seq<Item>, i: int) -> int
    decreases items.len() - i,
        when 0 <= i < items.len() && kids_bounded(items)
{
    let cs = items[i].children@;
    if cs.len() == 0 {
        i + 1
    } else {
        sub_end(items, cs[cs.len() - 1].0 as int)
    }
}

/// The subtree of child `j` of node `i` starts where its elder sibling's
/// subtree ends.
pub open spec fn kid_follows(items: Seq<Item>, i: int, j: int) -> bool {
    items[i].children@[j].0 == sub_end(items, items[i].children@[j - 1].0 as int)
}

/// The subtree of root `r` starts where the previous root's subtree ends.
pub open spec fn root_follows(items: Seq<Item>, roots: Seq<Index>, r: int) -> bool {
    roots[r].0 == sub_end(items, roots[r - 1].0 as int)
}

/// Handles were assigned in pre-order and the store is laid out accordingly:
/// a node's first child follows it directly, each further child starts where
/// its predecessor's subtree ends, and the root subtrees tile the whole
/// store in root-list order.
pub open spec fn preorder_ok(items: Seq<Item>, roots: Seq<Index>) -> bool {
    &&& forall|i: int|
        0 <= i < items.len() && items[i].children@.len() > 0 ==> (#[trigger] items[
            i
        ]).children@[0].0 == i + 1
    &&& forall|i: int, j: int|
        0 <= i < items.len() && 1 <= j < items[i].children@.len() ==> #[trigger] kid_follows(
            items,
            i,
            j,
        )
    &&& (roots.len() > 0 ==> roots[0].0 == 0)
    &&& forall|r: int| 1 <= r < roots.len() ==> #[trigger] root_follows(items, roots, r)
    &&& (roots.len() > 0 ==> sub_end(items, roots[roots.len() - 1].0 as int) == items.len())
    &&& (roots.len() == 0 ==> items.len() == 0)
}

/// The subtree of a well-formed arena occupies a non-empty range that stays
/// inside the store.
pub proof fn lemma_sub_end_bounds(items: Seq<Item>, i: int)
    requires
        kids_bounded(items),
        0 <= i < items.len(),
    ensures
        i < sub_end(items, i) <= items.len(),
    decreases items.len() - i,
{
    let cs = items[i].children@;
    if cs.len() > 0 {
        let c = cs[cs.len() - 1].0 as int;
        lemma_sub_end_bounds(items, c);
    }
}

/// `sub_end` reads only the nodes from `i` onward, so two stores that agree
/// there agree on it; in particular appending nodes to the store, or editing
/// a node before `i`, leaves it unchanged.
pub proof fn lemma_sub_end_agree(items1: Seq<Item>, items2: Seq<Item>, i: int)
    requires
        kids_bounded(items1),
        kids_bounded(items2),
        items1.len() <= items2.len(),
        0 <= i < items1.len(),
        forall|k: int| i <= k < items1.len() ==> items1[k] == #[trigger] items2[k],
    ensures
        sub_end(items2, i) == sub_end(items1, i),
    decreases items1.len() - i,
{
    let cs = items1[i].children@;
    if cs.len() > 0 {
        let c = cs[cs.len() - 1].0 as int;
        lemma_sub_end_agree(items1, items2, c);
    }
}

impl LspTreeModel {
    /// The arena is a well-formed pre-order forest.
    pub open spec fn wf(&self) -> bool {
        &&& kids_bounded(self.lsp_items@)
        &&& links_ok(self.lsp_items@, self.roots@)
        &&& preorder_ok(self.lsp_items@, self.roots@)
    }

    /// The pre-order sequence of payloads the arena stores.
    pub open spec fn payloads(&self) -> Seq<SymbolInfoView> {
        self.lsp_items@.map_values(|it: Item| it.item@)
    }

    /// The node behind a handle.
    pub fn get_item(&self, ix: Index) -> (r: &Item)
        requires
            ix.0 < self.lsp_items@.len(),
        ensures
            *r == self.lsp_items@[ix.0 as int],
    {
        &self.lsp_items[ix.0]
    }

    /// The parent handle of a node, `None` for a root.
    pub fn parent(&self, ix: &Index) -> (r: Option<Index>)
        requires
            ix.0 < self.lsp_items@.len(),
        ensures
            r == self.lsp_items@[ix.0 as int].parent,
    {
        self.lsp_items[ix.0].parent
    }

    /// How many nodes the arena holds.
    pub fn row_count(&self) -> (n: usize)
        ensures
            n == self.lsp_items@.len(),
    {
        self.lsp_items.len()
    }

    /// This engine renders a single column.
    pub fn column_count(&self) -> (n: usize)
        ensures
            n == 1,
    {
        1
    }

    /// The ordered root handles.
    pub fn get_roots(&self) -> (r: &Vec<Index>)
        ensures
            r@ == self.roots@,
    {
        &self.roots
    }

    /// The handle of the first root, if the arena is not empty.
    pub fn get_first(&self) -> (r: Option<Index>)
        ensures
            r == self.spec_first(),
    {
        if self.roots.len() > 0 {
            return Some(self.roots[0]);
        }
        None
    }

    /// What [`Self::get_first`] returns: the first root if there is one.
    pub open spec fn spec_first(&self) -> Option<Index> {
        if self.roots@.len() > 0 {
            Some(self.roots@[0])
        } else {
            None
        }
    }
}

impl TreeItem for Item {
    type Data = Index;

    open spec fn spec_children(&self) -> Seq<Index> {
        self.children@
    }

    open spec fn spec_index(&self) -> Index {
        self.ix
    }

    open spec fn spec_child_index(&self) -> int {
        self.child_ix as int
    }

    open spec fn spec_parent(&self) -> Option<Index> {
        self.parent
    }

    fn child(&self, row: usize) -> (r: Index) {
        self.children[row]
    }

    fn child_count(&self) -> (n: usize) {
        self.children.len()
    }

    fn child_index(&self) -> (r: usize) {
        self.child_ix
    }

    fn data(&self, column: usize) -> Self::Data {
        self.children[column]
    }

    fn parent(&self) -> (r: Option<Index>) {
        self.parent
    }

    fn index(&self) -> (r: Index) {
        self.ix
    }

    fn render(&self) -> &str {
        self.item.name.as_str()
    }
}

} // verus!
