//! The view around one arena: per-node collapse state, the focus cursor
//! with its change notification, and key-event handling.

use vstd::prelude::*;
use crate::tree::{Index, TreeItem};
use crate::lsp_tree::{Item, LspTreeModel, kids_bounded, links_ok, preorder_ok, sub_end,
    lemma_sub_end_bounds};
use crate::nav::{sib_next, sib_prev, uncle_next, lemma_nav_valid, lemma_step_after_subtree};

verus! {

/// One key press, reduced to what the tree view distinguishes.
#[derive(Clone, Copy, PartialEq, Eq, Structural, Debug)]
pub enum KeyEvent {
    Char(char),
    Up,
    Down,
    Enter,
    OtherKey,
}

/// An input event handed to the view.
#[derive(Clone, Copy, PartialEq, Eq, Structural, Debug)]
pub enum Event {
    Key(KeyEvent),
    Other,
}

/// What the view did with an event: consumed it, consumed it and asks the
/// surrounding layer to close the view, or left it unhandled.
#[derive(Clone, Copy, PartialEq, Eq, Structural, Debug)]
pub enum EventResult {
    Ignored,
    Consumed,
    Close,
}

/// Where a downward cursor step from node `i` lands: the first child when
/// the node is expanded and has one; otherwise the next sibling, or failing
/// that the next uncle; `None` when the walk is at the very last visible
/// node.
pub open spec fn down_target(
    items: Seq<Item>,
    roots: Seq<Index>,
    collapsed: Seq<bool>,
    i: int,
) -> Option<Index> {
    if items[i].children@.len() > 0 && !collapsed[i] {
        Some(items[i].children@[0])
    } else {
        match sib_next(items, roots, i) {
            Some(s) => Some(s),
            None => uncle_next(items, roots, i),
        }
    }
}

/// Where an upward cursor step from node `i` lands: the previous sibling,
/// or failing that the parent; `None` at the very first node.
pub open spec fn up_target(items: Seq<Item>, roots: Seq<Index>, i: int) -> Option<Index> {
    match sib_prev(items, roots, i) {
        Some(s) => Some(s),
        None => items[i].parent,
    }
}

/// The focus transition of a downward step and the notification it fires:
/// the new focus, and `Some(previous)` exactly when the focus moved away
/// from a previously focused node.
pub open spec fn spec_move_down(
    items: Seq<Item>,
    roots: Seq<Index>,
    collapsed: Seq<bool>,
    focus: Option<Index>,
) -> (Option<Index>, Option<Index>) {
    match focus {
        None => (if roots.len() > 0 { Some(roots[0]) } else { None }, None),
        Some(ix) => match down_target(items, roots, collapsed, ix.0 as int) {
            Some(t) => (Some(t), if t == ix { None } else { Some(ix) }),
            None => (Some(ix), None),
        },
    }
}

/// The focus transition of an upward step and the notification it fires:
/// the new focus, and `Some(new)` exactly when the focus moved.
pub open spec fn spec_move_up(items: Seq<Item>, roots: Seq<Index>, focus: Option<Index>) -> (
    Option<Index>,
    Option<Index>,
) {
    match focus {
        None => (if roots.len() > 0 { Some(roots[0]) } else { None }, None),
        Some(ix) => match up_target(items, roots, ix.0 as int) {
            Some(t) => (Some(t), Some(t)),
            None => (Some(ix), None),
        },
    }
}

/// With nothing collapsed, the downward cursor rule walks the arena in
/// exactly pre-order: from node `i` it lands on node `i + 1`, and it stops
/// only past the last node.  Since the adapter stores the payloads in
/// pre-order of the nested input, repeated "move down" calls from the first
/// root — node 0, per the layout — visit every node exactly once, in the
/// order of a direct recursive pre-order walk of that input.
pub proof fn law_preorder_walk(items: Seq<Item>, roots: Seq<Index>, cs: Seq<bool>, i: int)
    requires
        kids_bounded(items),
        links_ok(items, roots),
        preorder_ok(items, roots),
        items.len() <= usize::MAX,
        cs.len() == items.len(),
        forall|x: int| 0 <= x < cs.len() ==> !(#[trigger] cs[x]),
        0 <= i < items.len(),
    ensures
        down_target(items, roots, cs, i) == if i + 1 < items.len() {
            Some(Index((i + 1) as usize))
        } else {
            None::<Index>
        },
        roots.len() > 0 ==> roots[0] == Index(0),
{
    lemma_sub_end_bounds(items, i);
    if items[i].children@.len() > 0 {
        assert(items[i].children@[0].0 == i + 1);
        assert(items[i].children@[0] == Index((i + 1) as usize));
    } else {
        assert(sub_end(items, i) == i + 1);
        lemma_step_after_subtree(items, roots, i);
    }
    if roots.len() > 0 {
        assert(roots[0].0 == 0);
    }
}

/// The collapse state after toggling node `i`: flipped when the node has
/// children, untouched when it is a leaf.
pub open spec fn spec_toggled(items: Seq<Item>, collapsed: Seq<bool>, i: int) -> Seq<bool> {
    if items[i].children@.len() > 0 {
        collapsed.update(i, !collapsed[i])
    } else {
        collapsed
    }
}

/// Toggling a node's collapse state twice restores the state exactly.
pub proof fn law_double_toggle(items: Seq<Item>, collapsed: Seq<bool>, i: int)
    requires
        0 <= i < collapsed.len(),
    ensures
        spec_toggled(items, spec_toggled(items, collapsed, i), i) == collapsed,
{
    assert(spec_toggled(items, spec_toggled(items, collapsed, i), i) =~= collapsed);
}

/// A tree view: the arena it shows, which nodes are collapsed, the focus
/// cursor, and the row the focused node occupied in the last render.
#[derive(Debug)]
pub struct TreeView {
    pub model: LspTreeModel,
    pub collapsed: Vec<bool>,
    pub focus: Option<Index>,
    pub focused_row: Option<usize>,
}

impl TreeView {
    /// The view is consistent: its arena is well-formed, it keeps one
    /// collapse flag per node, and the focus handle, if any, is valid.
    pub open spec fn wf(&self) -> bool {
        &&& self.model.wf()
        &&& self.collapsed@.len() == self.model.lsp_items@.len()
        &&& match self.focus {
            Some(f) => f.0 < self.model.lsp_items@.len(),
            None => true,
        }
    }

    /// Wrap an arena in a view: everything expanded, nothing focused.
    pub fn new(model: LspTreeModel) -> (v: Self)
        ensures
            v.model == model,
            v.collapsed@.len() == model.lsp_items@.len(),
            forall|i: int| 0 <= i < v.collapsed@.len() ==> !(#[trigger] v.collapsed@[i]),
            v.focus is None,
            v.focused_row is None,
            model.wf() ==> v.wf(),
    {
        let n = model.lsp_items.len();
        let mut collapsed: Vec<bool> = Vec::new();
        let mut i: usize = 0;
        while i < n
            invariant
                i <= n,
                collapsed@.len() == i,
                forall|t: int| 0 <= t < i ==> !(#[trigger] collapsed@[t]),
            decreases n - i,
        {
            collapsed.push(false);
            i += 1;
        }
        TreeView { model, collapsed, focus: None, focused_row: None }
    }

    /// Whether node `ix` is currently collapsed.
    pub fn is_collapsed(&self, ix: Index) -> (r: bool)
        requires
            self.wf(),
            ix.0 < self.model.lsp_items@.len(),
        ensures
            r == self.collapsed@[ix.0 as int],
    {
        self.collapsed[ix.0]
    }

    /// Whether node `ix` has any children.
    pub fn has_children(&self, ix: Index) -> (r: bool)
        requires
            ix.0 < self.model.lsp_items@.len(),
        ensures
            r == (self.model.lsp_items@[ix.0 as int].children@.len() > 0),
    {
        self.model.get_item(ix).children.len() > 0
    }

    /// The node behind a handle.
    pub fn get_item(&self, ix: Index) -> (r: &Item)
        requires
            ix.0 < self.model.lsp_items@.len(),
        ensures
            *r == self.model.lsp_items@[ix.0 as int],
    {
        self.model.get_item(ix)
    }

    /// Focus the first root, or nothing when the arena is empty.
    fn focus_first(&mut self)
        ensures
            final(self).focus == old(self).model.spec_first(),
            final(self).model == old(self).model,
            final(self).collapsed == old(self).collapsed,
            final(self).focused_row == old(self).focused_row,
    {
        self.focus = self.model.get_first();
    }

    /// Step the cursor down to the next visible node: into an expanded
    /// node's first child, else to the next sibling or uncle.  Fires the
    /// focus-change notification — the returned handle is the node left
    /// behind — exactly when the focus moved between two nodes.
    pub fn move_cursor_down(&mut self) -> (notify: Option<Index>)
        requires
            old(self).wf(),
        ensures
            final(self).model == old(self).model,
            final(self).collapsed == old(self).collapsed,
            final(self).focused_row == old(self).focused_row,
            final(self).wf(),
            (final(self).focus, notify) == spec_move_down(
                old(self).model.lsp_items@,
                old(self).model.roots@,
                old(self).collapsed@,
                old(self).focus,
            ),
    {
        let ix = match self.focus {
            Some(focus) => focus,
            None => {
                self.focus_first();
                return None;
            },
        };
        proof {
            lemma_nav_valid(self.model.lsp_items@, self.model.roots@, ix.0 as int);
        }
        let child_count = self.model.get_item(ix).children.len();
        if child_count == 0 || self.is_collapsed(ix) {
            match self.model.next_sibling(ix) {
                Some(n) => {
                    self.focus = Some(n);
                },
                None => {
                    match self.model.next_uncle(ix) {
                        Some(n) => {
                            self.focus = Some(n);
                        },
                        None => {},
                    }
                },
            }
        } else {
            let first = self.model.get_item(ix).child(0);
            self.focus = Some(first);
        }
        match self.focus {
            Some(f) => {
                if f.0 != ix.0 {
                    Some(ix)
                } else {
                    None
                }
            },
            None => None,
        }
    }

    /// Step the cursor up to the previous sibling, or failing that to the
    /// parent.  Fires the focus-change notification — the returned handle
    /// is the newly focused node — exactly when the focus moved.
    pub fn move_cursor_up(&mut self) -> (notify: Option<Index>)
        requires
            old(self).wf(),
        ensures
            final(self).model == old(self).model,
            final(self).collapsed == old(self).collapsed,
            final(self).focused_row == old(self).focused_row,
            final(self).wf(),
            (final(self).focus, notify) == spec_move_up(
                old(self).model.lsp_items@,
                old(self).model.roots@,
                old(self).focus,
            ),
    {
        let ix = match self.focus {
            Some(focus) => focus,
            None => {
                self.focus_first();
                return None;
            },
        };
        match self.model.prev_sibling(ix) {
            Some(n) => {
                self.focus = Some(n);
                Some(n)
            },
            None => {
                match self.model.parent(&ix) {
                    Some(n) => {
                        self.focus = Some(n);
                        Some(n)
                    },
                    None => None,
                }
            },
        }
    }

    /// Toggle the collapse state of node `ix`.  Toggling a leaf is a no-op.
    pub fn toggle_collapse(&mut self, ix: Index)
        requires
            old(self).wf(),
            ix.0 < old(self).model.lsp_items@.len(),
        ensures
            final(self).model == old(self).model,
            final(self).focus == old(self).focus,
            final(self).focused_row == old(self).focused_row,
            final(self).wf(),
            final(self).collapsed@ == spec_toggled(
                old(self).model.lsp_items@,
                old(self).collapsed@,
                ix.0 as int,
            ),
    {
        if self.model.get_item(ix).children.len() > 0 {
            let cur = self.collapsed[ix.0];
            self.collapsed[ix.0] = !cur;
        }
    }

    /// React to one input event: `q` asks for the view to be closed, the
    /// arrow keys move the cursor, enter toggles collapse on the focused
    /// node, and everything else is left for the enclosing component.  The
    /// second component is the focus-change notification of a cursor move,
    /// if one fired.
    pub fn handle_event(&mut self, event: &Event) -> (r: (EventResult, Option<Index>))
        requires
            old(self).wf(),
        ensures
            final(self).wf(),
            final(self).model == old(self).model,
            final(self).focused_row == old(self).focused_row,
            match *event {
                Event::Key(KeyEvent::Char(c)) => {
                    &&& final(self).collapsed == old(self).collapsed
                    &&& final(self).focus == old(self).focus
                    &&& r == (
                        if c == 'q' {
                            EventResult::Close
                        } else {
                            EventResult::Ignored
                        },
                        None::<Index>,
                    )
                },
                Event::Key(KeyEvent::Up) => {
                    &&& final(self).collapsed == old(self).collapsed
                    &&& r.0 == EventResult::Consumed
                    &&& (final(self).focus, r.1) == spec_move_up(
                        old(self).model.lsp_items@,
                        old(self).model.roots@,
                        old(self).focus,
                    )
                },
                Event::Key(KeyEvent::Down) => {
                    &&& final(self).collapsed == old(self).collapsed
                    &&& r.0 == EventResult::Consumed
                    &&& (final(self).focus, r.1) == spec_move_down(
                        old(self).model.lsp_items@,
                        old(self).model.roots@,
                        old(self).collapsed@,
                        old(self).focus,
                    )
                },
                Event::Key(KeyEvent::Enter) => {
                    &&& final(self).focus == old(self).focus
                    &&& r == (EventResult::Consumed, None::<Index>)
                    &&& final(self).collapsed@ == match old(self).focus {
                        Some(f) => spec_toggled(
                            old(self).model.lsp_items@,
                            old(self).collapsed@,
                            f.0 as int,
                        ),
                        None => old(self).collapsed@,
                    }
                },
                Event::Key(KeyEvent::OtherKey) => {
                    &&& final(self).collapsed == old(self).collapsed
                    &&& final(self).focus == old(self).focus
                    &&& r == (EventResult::Ignored, None::<Index>)
                },
                Event::Other => {
                    &&& final(self).collapsed == old(self).collapsed
                    &&& final(self).focus == old(self).focus
                    &&& r == (EventResult::Ignored, None::<Index>)
                },
            },
    {
        let key = match event {
            Event::Key(key) => key,
            Event::Other => {
                return (EventResult::Ignored, None);
            },
        };
        match key {
            KeyEvent::Char(c) => {
                if *c == 'q' {
                    (EventResult::Close, None)
                } else {
                    (EventResult::Ignored, None)
                }
            },
            KeyEvent::Up => {
                let notify = self.move_cursor_up();
                (EventResult::Consumed, notify)
            },
            KeyEvent::Down => {
                let notify = self.move_cursor_down();
                (EventResult::Consumed, notify)
            },
            KeyEvent::Enter => {
                match self.focus {
                    Some(focused) => {
                        self.toggle_collapse(focused);
                    },
                    None => {},
                }
                (EventResult::Consumed, None)
            },
            KeyEvent::OtherKey => (EventResult::Ignored, None),
        }
    }
}

} // verus!
