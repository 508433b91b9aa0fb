//! Navigation over the arena: sibling and uncle stepping and depth, all pure,
//! with the lemmas that relate them to the pre-order layout.

use vstd::prelude::*;
use crate::tree::Index;
use crate::lsp_tree::{Item, LspTreeModel, kids_bounded, kid_follows, links_ok, preorder_ok,
    root_follows, sub_end, lemma_sub_end_bounds};

verus! {

/// The next sibling of node `i`: the child after it in its parent's list,
/// or the next root when `i` is a root; `None` past the end.
pub open spec fn sib_next(items: Seq<Item>, roots: Seq<Index>, i: int) -> Option<Index> {
    let c = items[i].child_ix as int;
    match items[i].parent {
        Some(p) => {
            if c + 1 < items[p.0 as int].children@.len() {
                Some(items[p.0 as int].children@[c + 1])
            } else {
                None
            }
        },
        None => {
            if c + 1 < roots.len() {
                Some(roots[c + 1])
            } else {
                None
            }
        },
    }
}

/// The previous sibling of node `i`, mirror of [`sib_next`].
pub open spec fn sib_prev(items: Seq<Item>, roots: Seq<Index>, i: int) -> Option<Index> {
    let c = items[i].child_ix as int;
    match items[i].parent {
        Some(p) => {
            if c >= 1 {
                Some(items[p.0 as int].children@[c - 1])
            } else {
                None
            }
        },
        None => {
            if c >= 1 {
                Some(roots[c - 1])
            } else {
                None
            }
        },
    }
}

/// The next uncle of node `i`: its parent's next sibling, or failing that
/// the parent's next uncle; `None` once the walk runs off the root level.
pub open spec fn uncle_next(items: Seq<Item>, roots: Seq<Index>, i: int) -> Option<Index>
    decreases i,
        when 0 <= i < items.len() && links_ok(items, roots)
{
    match items[i].parent {
        None => None,
        Some(p) => match sib_next(items, roots, p.0 as int) {
            Some(s) => Some(s),
            None => uncle_next(items, roots, p.0 as int),
        },
    }
}

/// The previous uncle of node `i`, mirror of [`uncle_next`].
pub open spec fn uncle_prev(items: Seq<Item>, roots: Seq<Index>, i: int) -> Option<Index>
    decreases i,
        when 0 <= i < items.len() && links_ok(items, roots)
{
    match items[i].parent {
        None => None,
        Some(p) => match sib_prev(items, roots, p.0 as int) {
            Some(s) => Some(s),
            None => uncle_prev(items, roots, p.0 as int),
        },
    }
}

/// How many ancestors node `i` has.
pub open spec fn spec_depth(items: Seq<Item>, roots: Seq<Index>, i: int) -> nat
    decreases i,
        when 0 <= i < items.len() && links_ok(items, roots)
{
    match items[i].parent {
        None => 0,
        Some(p) => 1 + spec_depth(items, roots, p.0 as int),
    }
}

/// A node's depth never exceeds its pre-order index.
pub proof fn lemma_depth_le_index(items: Seq<Item>, roots: Seq<Index>, i: int)
    requires
        links_ok(items, roots),
        0 <= i < items.len(),
    ensures
        spec_depth(items, roots, i) <= i,
    decreases i,
{
    match items[i].parent {
        None => {},
        Some(p) => {
            lemma_depth_le_index(items, roots, p.0 as int);
        },
    }
}

/// How many times the uncle walk recurses before it answers.
pub open spec fn uncle_steps(items: Seq<Item>, roots: Seq<Index>, i: int) -> nat
    decreases i,
        when 0 <= i < items.len() && links_ok(items, roots)
{
    match items[i].parent {
        None => 0,
        Some(p) => match sib_next(items, roots, p.0 as int) {
            Some(_) => 1,
            None => 1 + uncle_steps(items, roots, p.0 as int),
        },
    }
}

/// Uncle stepping terminates: from any node it recurses at most as many
/// times as the node is deep, so it runs off the root level and answers.
pub proof fn law_uncle_termination(items: Seq<Item>, roots: Seq<Index>, i: int)
    requires
        links_ok(items, roots),
        0 <= i < items.len(),
    ensures
        uncle_steps(items, roots, i) <= spec_depth(items, roots, i),
    decreases i,
{
    match items[i].parent {
        None => {},
        Some(p) => {
            law_uncle_termination(items, roots, p.0 as int);
        },
    }
}

/// Sibling stepping is symmetric: whenever a node has a previous sibling,
/// stepping forward from that sibling comes straight back, and conversely.
pub proof fn law_sibling_symmetry(items: Seq<Item>, roots: Seq<Index>, i: int)
    requires
        links_ok(items, roots),
        0 <= i < items.len(),
    ensures
        match sib_prev(items, roots, i) {
            Some(m) => sib_next(items, roots, m.0 as int) == Some(Index(i as usize)),
            None => true,
        },
        match sib_next(items, roots, i) {
            Some(m) => sib_prev(items, roots, m.0 as int) == Some(Index(i as usize)),
            None => true,
        },
{
}

/// Every handle navigation can answer with resolves inside the store.
pub proof fn lemma_nav_valid(items: Seq<Item>, roots: Seq<Index>, i: int)
    requires
        kids_bounded(items),
        links_ok(items, roots),
        0 <= i < items.len(),
    ensures
        match sib_next(items, roots, i) {
            Some(s) => s.0 < items.len(),
            None => true,
        },
        match sib_prev(items, roots, i) {
            Some(s) => s.0 < items.len(),
            None => true,
        },
        match uncle_next(items, roots, i) {
            Some(s) => s.0 < items.len(),
            None => true,
        },
        match uncle_prev(items, roots, i) {
            Some(s) => s.0 < items.len(),
            None => true,
        },
    decreases i,
{
    match items[i].parent {
        None => {},
        Some(p) => {
            lemma_nav_valid(items, roots, p.0 as int);
        },
    }
}

/// The node a downward walk continues at after the subtree of `i` is done:
/// the next sibling of the nearest ancestor (or of `i` itself) that has one.
/// In a pre-order arena that is exactly the node stored where the subtree of
/// `i` ends, and `None` exactly when that subtree ends the whole store.
#[verifier::spinoff_prover]
#[verifier::rlimit(100)]
pub proof fn lemma_step_after_subtree(items: Seq<Item>, roots: Seq<Index>, i: int)
    requires
        kids_bounded(items),
        links_ok(items, roots),
        preorder_ok(items, roots),
        items.len() <= usize::MAX,
        0 <= i < items.len(),
    ensures
        ({
            let step = match sib_next(items, roots, i) {
                Some(s) => Some(s),
                None => uncle_next(items, roots, i),
            };
            step == if sub_end(items, i) < items.len() {
                Some(Index(sub_end(items, i) as usize))
            } else {
                None
            }
        }),
    decreases i,
{
    lemma_sub_end_bounds(items, i);
    match items[i].parent {
        None => {
            let r = items[i].child_ix as int;
            assert(roots[r] == Index(i as usize));
            assert(roots[r].0 as int == i);
            if r + 1 < roots.len() {
                assert(root_follows(items, roots, r + 1));
                assert(roots[r + 1].0 == sub_end(items, roots[r].0 as int));
                assert(roots[r + 1].0 < items.len());
                assert(sib_next(items, roots, i) == Some(roots[r + 1]));
                assert(roots[r + 1] == Index(sub_end(items, i) as usize));
            } else {
                assert(r == roots.len() - 1);
                assert(sub_end(items, roots[roots.len() - 1].0 as int) == items.len());
                assert(sub_end(items, i) == items.len());
                assert(sib_next(items, roots, i) is None);
                assert(uncle_next(items, roots, i) is None);
            }
        },
        Some(p) => {
            let pi = p.0 as int;
            let c = items[i].child_ix as int;
            let cs = items[pi].children@;
            assert(cs[c] == Index(i as usize));
            assert(cs[c].0 as int == i);
            if c + 1 < cs.len() {
                assert(kid_follows(items, pi, c + 1));
                assert(cs[c + 1].0 == sub_end(items, cs[c].0 as int));
                assert(cs[c + 1].0 < items.len());
                assert(sib_next(items, roots, i) == Some(cs[c + 1]));
                assert(cs[c + 1] == Index(sub_end(items, i) as usize));
            } else {
                assert(c == cs.len() - 1);
                assert(sub_end(items, pi) == sub_end(items, cs[cs.len() - 1].0 as int));
                assert(sub_end(items, pi) == sub_end(items, i));
                lemma_step_after_subtree(items, roots, pi);
                assert(sib_next(items, roots, i) is None);
                assert(uncle_next(items, roots, i) == (match sib_next(items, roots, pi) {
                    Some(s) => Some(s),
                    None => uncle_next(items, roots, pi),
                }));
            }
        },
    }
}

impl LspTreeModel {
    /// How deep node `ix` sits: the number of ancestors above it.
    pub fn depth(&self, ix: Index) -> (d: usize)
        requires
            self.wf(),
            ix.0 < self.lsp_items@.len(),
        ensures
            d == spec_depth(self.lsp_items@, self.roots@, ix.0 as int),
    {
        let mut d: usize = 0;
        let mut iter = ix;
        proof {
            lemma_depth_le_index(self.lsp_items@, self.roots@, ix.0 as int);
        }
        loop
            invariant
                self.wf(),
                iter.0 < self.lsp_items@.len(),
                spec_depth(self.lsp_items@, self.roots@, ix.0 as int) == d + spec_depth(
                    self.lsp_items@,
                    self.roots@,
                    iter.0 as int,
                ),
                spec_depth(self.lsp_items@, self.roots@, ix.0 as int) <= ix.0,
            decreases iter.0,
        {
            match self.lsp_items[iter.0].parent {
                Some(parent) => {
                    d += 1;
                    iter = parent;
                },
                None => {
                    return d;
                },
            }
        }
    }

    /// The next sibling of `ix`, `None` when it is its parent's (or the root
    /// list's) last child.
    pub fn next_sibling(&self, ix: Index) -> (r: Option<Index>)
        requires
            self.wf(),
            ix.0 < self.lsp_items@.len(),
        ensures
            r == sib_next(self.lsp_items@, self.roots@, ix.0 as int),
    {
        let item = self.get_item(ix);
        match item.parent {
            Some(parent) => {
                let child_index = item.child_ix;
                let parent_item = self.get_item(parent);
                if parent_item.children.len() > child_index + 1 {
                    return Some(parent_item.children[child_index + 1]);
                }
                None
            },
            None => {
                let child_index = item.child_ix;
                if self.roots.len() > child_index + 1 {
                    return Some(self.roots[child_index + 1]);
                }
                None
            },
        }
    }

    /// The previous sibling of `ix`, `None` when it is the first.
    pub fn prev_sibling(&self, ix: Index) -> (r: Option<Index>)
        requires
            self.wf(),
            ix.0 < self.lsp_items@.len(),
        ensures
            r == sib_prev(self.lsp_items@, self.roots@, ix.0 as int),
    {
        let item = self.get_item(ix);
        match item.parent {
            Some(parent) => {
                let child_index = item.child_ix;
                let parent_item = self.get_item(parent);
                if child_index > 0 {
                    return Some(parent_item.children[child_index - 1]);
                }
                None
            },
            None => {
                let child_index = item.child_ix;
                if child_index > 0 {
                    return Some(self.roots[child_index - 1]);
                }
                None
            },
        }
    }

    /// The next uncle of `ix`: the first node past the subtree of `ix`'s
    /// parent, found by stepping up the ancestor chain.
    pub fn next_uncle(&self, ix: Index) -> (r: Option<Index>)
        requires
            self.wf(),
            ix.0 < self.lsp_items@.len(),
        ensures
            r == uncle_next(self.lsp_items@, self.roots@, ix.0 as int),
        decreases spec_depth(self.lsp_items@, self.roots@, ix.0 as int),
    {
        let item = self.get_item(ix);
        match item.parent {
            Some(parent) => {
                match self.next_sibling(parent) {
                    Some(s) => Some(s),
                    None => self.next_uncle(parent),
                }
            },
            None => None,
        }
    }

    /// The previous uncle of `ix`, mirror of [`Self::next_uncle`].
    pub fn prev_uncle(&self, ix: Index) -> (r: Option<Index>)
        requires
            self.wf(),
            ix.0 < self.lsp_items@.len(),
        ensures
            r == uncle_prev(self.lsp_items@, self.roots@, ix.0 as int),
        decreases spec_depth(self.lsp_items@, self.roots@, ix.0 as int),
    {
        let item = self.get_item(ix);
        match item.parent {
            Some(parent) => {
                match self.prev_sibling(parent) {
                    Some(s) => Some(s),
                    None => self.prev_uncle(parent),
                }
            },
            None => None,
        }
    }
}

} // verus!
