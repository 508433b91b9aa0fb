//! The rendering pass: lay the visible nodes out as rows, one per node in
//! pre-order, skipping the inside of collapsed subtrees, and find the row
//! the focused node landed on.

use vstd::prelude::*;
use crate::tree::{Index, TreeItem};
use crate::lsp_tree::{Item, kids_bounded, kid_follows, links_ok, preorder_ok, root_follows,
    sub_end, lemma_sub_end_bounds};
use crate::view::{TreeView, law_double_toggle, spec_toggled};

verus! {

/// The glyph class a row starts with: an expanded or collapsed marker for a
/// node with children, nothing for a leaf.
#[derive(Clone, Copy, PartialEq, Eq, Structural, Debug)]
pub enum RowMarker {
    Expanded,
    Collapsed,
    Leaf,
}

/// One visible row of the rendered tree: which node it shows, how far it is
/// indented, its marker, and whether it is the focused row.
#[derive(Clone, Copy, PartialEq, Eq, Structural, Debug)]
pub struct RenderedRow {
    pub index: Index,
    pub indent: usize,
    pub marker: RowMarker,
    pub focused: bool,
}

/// The marker node `i` shows under the given collapse state.
pub open spec fn spec_marker(items: Seq<Item>, collapsed: Seq<bool>, i: int) -> RowMarker {
    if items[i].children@.len() == 0 {
        RowMarker::Leaf
    } else if collapsed[i] {
        RowMarker::Collapsed
    } else {
        RowMarker::Expanded
    }
}

/// The row node `i` produces at the given indentation.
pub open spec fn spec_row(
    items: Seq<Item>,
    collapsed: Seq<bool>,
    focus: Option<Index>,
    i: int,
    indent: int,
) -> RenderedRow {
    RenderedRow {
        index: Index(i as usize),
        indent: indent as usize,
        marker: spec_marker(items, collapsed, i),
        focused: focus == Some(Index(i as usize)),
    }
}

/// The rows of the subtree at node `i`: the node's own row, then — unless
/// the node is collapsed — the rows of each child subtree in order, two
/// columns further in.
pub open spec fn rows_of(
    items: Seq<Item>,
    collapsed: Seq<bool>,
    focus: Option<Index>,
    i: int,
    indent: int,
) -> Seq<RenderedRow>
    decreases items.len() - i, 1int, 0int,
        when 0 <= i < items.len() && kids_bounded(items)
{
    seq![spec_row(items, collapsed, focus, i, indent)] + if items[i].children@.len() == 0
        || collapsed[i] {
        Seq::empty()
    } else {
        rows_of_kids(items, collapsed, focus, i, 0, indent + 2)
    }
}

/// The rows of the child subtrees of node `i`, from child `j` on.
pub open spec fn rows_of_kids(
    items: Seq<Item>,
    collapsed: Seq<bool>,
    focus: Option<Index>,
    i: int,
    j: int,
    indent: int,
) -> Seq<RenderedRow>
    decreases items.len() - i, 0int, items[i].children@.len() - j,
        when 0 <= i < items.len() && 0 <= j && kids_bounded(items)
{
    if j >= items[i].children@.len() {
        Seq::empty()
    } else {
        rows_of(items, collapsed, focus, items[i].children@[j].0 as int, indent) + rows_of_kids(
            items,
            collapsed,
            focus,
            i,
            j + 1,
            indent,
        )
    }
}

/// The rows of the whole forest, from root `r` on, each root at
/// indentation zero.
pub open spec fn rows_of_roots(
    items: Seq<Item>,
    roots: Seq<Index>,
    collapsed: Seq<bool>,
    focus: Option<Index>,
    r: int,
) -> Seq<RenderedRow>
    decreases roots.len() - r,
        when 0 <= r
{
    if r >= roots.len() {
        Seq::empty()
    } else {
        rows_of(items, collapsed, focus, roots[r].0 as int, 0) + rows_of_roots(
            items,
            roots,
            collapsed,
            focus,
            r + 1,
        )
    }
}

/// Everything a render of the view puts on screen, in order.
pub open spec fn view_rows(v: TreeView) -> Seq<RenderedRow> {
    rows_of_roots(v.model.lsp_items@, v.model.roots@, v.collapsed@, v.focus, 0)
}

/// The position of the first row showing node `f`, if any row does.
pub open spec fn pos_of(rows: Seq<RenderedRow>, f: Index) -> Option<int>
    decreases rows.len(),
{
    if rows.len() == 0 {
        None
    } else if rows[0].index == f {
        Some(0)
    } else {
        match pos_of(rows.drop_first(), f) {
            Some(p) => Some(p + 1),
            None => None,
        }
    }
}

/// What [`pos_of`] answers: the first position whose row shows `f`, and
/// `None` exactly when no row does.
pub proof fn lemma_pos_of_char(rows: Seq<RenderedRow>, f: Index)
    ensures
        match pos_of(rows, f) {
            Some(p) => {
                &&& 0 <= p < rows.len()
                &&& rows[p].index == f
                &&& forall|t: int| 0 <= t < p ==> (#[trigger] rows[t]).index != f
            },
            None => forall|t: int| 0 <= t < rows.len() ==> (#[trigger] rows[t]).index != f,
        },
    decreases rows.len(),
{
    if rows.len() > 0 && rows[0].index != f {
        lemma_pos_of_char(rows.drop_first(), f);
        assert forall|t: int| 1 <= t < rows.len() implies rows[t]
            == rows.drop_first()[t - 1] by {}
    }
}

/// How many nodes sit strictly inside the subtree of node `c`, below its
/// root: exactly the rows that disappear when `c` is collapsed.
pub open spec fn descendant_count(items: Seq<Item>, c: int) -> int {
    sub_end(items, c) - c - 1
}

/// Row count of one subtree when at most the single node `c` is collapsed:
/// the size of the subtree, minus the descendants of `c` when `c` lies
/// inside it.
proof fn lemma_rows_count(
    items: Seq<Item>,
    roots: Seq<Index>,
    cs: Seq<bool>,
    focus: Option<Index>,
    i: int,
    indent: int,
    c: int,
)
    requires
        kids_bounded(items),
        links_ok(items, roots),
        preorder_ok(items, roots),
        cs.len() == items.len(),
        forall|x: int| 0 <= x < items.len() ==> ((#[trigger] cs[x]) <==> x == c),
        0 <= i < items.len(),
    ensures
        rows_of(items, cs, focus, i, indent).len() == (sub_end(items, i) - i) - (if i <= c
            < sub_end(items, i) {
            descendant_count(items, c)
        } else {
            0
        }),
    decreases items.len() - i, 1int, 0int,
{
    lemma_sub_end_bounds(items, i);
    if items[i].children@.len() == 0 || cs[i] {
        if cs[i] {
            assert(i == c);
        }
    } else {
        lemma_rows_count_kids(items, roots, cs, focus, i, 0, indent + 2, c);
        assert(items[i].children@[0].0 == i + 1);
    }
}

/// Row count of the child subtrees of node `i` from child `j` on, when at
/// most the single node `c` is collapsed.
proof fn lemma_rows_count_kids(
    items: Seq<Item>,
    roots: Seq<Index>,
    cs: Seq<bool>,
    focus: Option<Index>,
    i: int,
    j: int,
    indent: int,
    c: int,
)
    requires
        kids_bounded(items),
        links_ok(items, roots),
        preorder_ok(items, roots),
        cs.len() == items.len(),
        forall|x: int| 0 <= x < items.len() ==> ((#[trigger] cs[x]) <==> x == c),
        0 <= i < items.len(),
        0 <= j <= items[i].children@.len(),
        items[i].children@.len() > 0,
    ensures
        ({
            let start = if j < items[i].children@.len() {
                items[i].children@[j].0 as int
            } else {
                sub_end(items, i)
            };
            rows_of_kids(items, cs, focus, i, j, indent).len() == (sub_end(items, i) - start) - (
            if start <= c < sub_end(items, i) {
                descendant_count(items, c)
            } else {
                0
            })
        }),
    decreases items.len() - i, 0int, items[i].children@.len() - j,
{
    let n = items[i].children@.len() as int;
    lemma_sub_end_bounds(items, i);
    if j < n {
        let cj = items[i].children@[j].0 as int;
        lemma_sub_end_bounds(items, cj);
        lemma_rows_count(items, roots, cs, focus, cj, indent, c);
        lemma_rows_count_kids(items, roots, cs, focus, i, j + 1, indent, c);
        if j + 1 < n {
            assert(kid_follows(items, i, j + 1));
            assert(items[i].children@[j + 1].0 == sub_end(items, cj));
        } else {
            assert(sub_end(items, i) == sub_end(items, cj));
        }
    }
}

/// Row count of the whole forest from root `r` on, when at most the single
/// node `c` is collapsed.
proof fn lemma_rows_count_roots(
    items: Seq<Item>,
    roots: Seq<Index>,
    cs: Seq<bool>,
    focus: Option<Index>,
    r: int,
    c: int,
)
    requires
        kids_bounded(items),
        links_ok(items, roots),
        preorder_ok(items, roots),
        cs.len() == items.len(),
        forall|x: int| 0 <= x < items.len() ==> ((#[trigger] cs[x]) <==> x == c),
        0 <= r <= roots.len(),
    ensures
        ({
            let start = if r < roots.len() {
                roots[r].0 as int
            } else {
                items.len() as int
            };
            rows_of_roots(items, roots, cs, focus, r).len() == (items.len() - start) - (if start
                <= c < items.len() {
                descendant_count(items, c)
            } else {
                0
            })
        }),
    decreases roots.len() - r,
{
    if r < roots.len() {
        let x = roots[r].0 as int;
        lemma_sub_end_bounds(items, x);
        lemma_rows_count(items, roots, cs, focus, x, 0, c);
        lemma_rows_count_roots(items, roots, cs, focus, r + 1, c);
        if r + 1 < roots.len() {
            assert(root_follows(items, roots, r + 1));
            assert(roots[r + 1].0 == sub_end(items, x));
        } else {
            assert(sub_end(items, roots[roots.len() - 1].0 as int) == items.len());
        }
    }
}

/// With nothing collapsed, the render shows one row per node of the arena.
pub proof fn law_render_all_nodes(
    items: Seq<Item>,
    roots: Seq<Index>,
    cs: Seq<bool>,
    focus: Option<Index>,
)
    requires
        kids_bounded(items),
        links_ok(items, roots),
        preorder_ok(items, roots),
        cs.len() == items.len(),
        forall|x: int| 0 <= x < cs.len() ==> !(#[trigger] cs[x]),
    ensures
        rows_of_roots(items, roots, cs, focus, 0).len() == items.len(),
{
    lemma_rows_count_roots(items, roots, cs, focus, 0, -1);
    if roots.len() > 0 {
        assert(roots[0].0 == 0);
    }
}

/// Collapsing one node removes exactly the rows of its strict descendants
/// from the render: with only node `c` collapsed, the output is shorter
/// than the fully expanded output by `descendant_count(c)` rows — one row
/// for every node inside `c`'s subtree, while `c`'s own row stays.
pub proof fn law_collapse_skips_subtree(
    items: Seq<Item>,
    roots: Seq<Index>,
    cs_none: Seq<bool>,
    cs_one: Seq<bool>,
    focus: Option<Index>,
    c: int,
)
    requires
        kids_bounded(items),
        links_ok(items, roots),
        preorder_ok(items, roots),
        cs_none.len() == items.len(),
        cs_one.len() == items.len(),
        forall|x: int| 0 <= x < cs_none.len() ==> !(#[trigger] cs_none[x]),
        forall|x: int| 0 <= x < cs_one.len() ==> ((#[trigger] cs_one[x]) <==> x == c),
        0 <= c < items.len(),
    ensures
        rows_of_roots(items, roots, cs_one, focus, 0).len() == rows_of_roots(
            items,
            roots,
            cs_none,
            focus,
            0,
        ).len() - descendant_count(items, c),
{
    law_render_all_nodes(items, roots, cs_none, focus);
    lemma_rows_count_roots(items, roots, cs_one, focus, 0, c);
    assert(roots.len() > 0);
    assert(roots[0].0 == 0);
}

/// Toggling a node's collapse state twice renders exactly the rows the
/// untouched state renders: same count, same order.
pub proof fn law_double_toggle_rows(
    items: Seq<Item>,
    roots: Seq<Index>,
    cs: Seq<bool>,
    focus: Option<Index>,
    i: int,
)
    requires
        0 <= i < cs.len(),
    ensures
        rows_of_roots(
            items,
            roots,
            spec_toggled(items, spec_toggled(items, cs, i), i),
            focus,
            0,
        ) == rows_of_roots(items, roots, cs, focus, 0),
{
    law_double_toggle(items, cs, i);
}

impl TreeView {
    /// Append the rows of the subtree at `ix` to `target`: the node's own
    /// row at the given indentation, then — unless it is collapsed — each
    /// child subtree, two columns further in.
    pub fn render_rows(&self, ix: Index, level: usize, target: &mut Vec<RenderedRow>)
        requires
            self.wf(),
            ix.0 < self.model.lsp_items@.len(),
            level <= 2 * ix.0,
            2 * self.model.lsp_items@.len() <= usize::MAX,
        ensures
            final(target)@ == old(target)@ + rows_of(
                self.model.lsp_items@,
                self.collapsed@,
                self.focus,
                ix.0 as int,
                level as int,
            ),
        decreases self.model.lsp_items@.len() - ix.0,
    {
        let ghost items = self.model.lsp_items@;
        let ghost head = spec_row(items, self.collapsed@, self.focus, ix.0 as int, level as int);
        let child_count = self.model.get_item(ix).children.len();
        let collapsed_here = self.is_collapsed(ix);
        let marker = if child_count == 0 {
            RowMarker::Leaf
        } else if collapsed_here {
            RowMarker::Collapsed
        } else {
            RowMarker::Expanded
        };
        let focused = match self.focus {
            Some(f) => f.0 == ix.0,
            None => false,
        };
        target.push(RenderedRow { index: ix, indent: level, marker, focused });
        proof {
            assert(ix == Index(ix.0));
            assert(target@ =~= old(target)@ + seq![head]);
        }
        if child_count == 0 || collapsed_here {
            proof {
                assert(rows_of(items, self.collapsed@, self.focus, ix.0 as int, level as int)
                    =~= seq![head]);
            }
            return ;
        }
        let mut j: usize = 0;
        let ghost mut acc = Seq::<RenderedRow>::empty();
        while j < child_count
            invariant
                self.wf(),
                ix.0 < items.len(),
                items == self.model.lsp_items@,
                child_count == items[ix.0 as int].children@.len(),
                level <= 2 * ix.0,
                2 * items.len() <= usize::MAX,
                j <= child_count,
                target@ == old(target)@ + seq![head] + acc,
                rows_of_kids(items, self.collapsed@, self.focus, ix.0 as int, 0, level as int + 2)
                    == acc + rows_of_kids(
                    items,
                    self.collapsed@,
                    self.focus,
                    ix.0 as int,
                    j as int,
                    level as int + 2,
                ),
            decreases child_count - j,
        {
            let child = self.model.get_item(ix).children[j];
            proof {
                assert(ix.0 < child.0 && child.0 < items.len());
            }
            self.render_rows(child, level + 2, target);
            proof {
                let crows = rows_of(
                    items,
                    self.collapsed@,
                    self.focus,
                    child.0 as int,
                    level as int + 2,
                );
                assert(rows_of_kids(
                    items,
                    self.collapsed@,
                    self.focus,
                    ix.0 as int,
                    j as int,
                    level as int + 2,
                ) == crows + rows_of_kids(
                    items,
                    self.collapsed@,
                    self.focus,
                    ix.0 as int,
                    j as int + 1,
                    level as int + 2,
                ));
                acc = acc + crows;
                assert(target@ =~= old(target)@ + seq![head] + acc);
                assert(rows_of_kids(
                    items,
                    self.collapsed@,
                    self.focus,
                    ix.0 as int,
                    0,
                    level as int + 2,
                ) =~= acc + rows_of_kids(
                    items,
                    self.collapsed@,
                    self.focus,
                    ix.0 as int,
                    j as int + 1,
                    level as int + 2,
                ));
            }
            j += 1;
        }
        proof {
            assert(rows_of_kids(
                items,
                self.collapsed@,
                self.focus,
                ix.0 as int,
                child_count as int,
                level as int + 2,
            ) =~= Seq::<RenderedRow>::empty());
            assert(final(target)@ =~= old(target)@ + rows_of(
                items,
                self.collapsed@,
                self.focus,
                ix.0 as int,
                level as int,
            ));
        }
    }

    /// Produce the full ordered row list of the view — every root subtree
    /// in root order, collapsed subtrees reduced to their root's row — and
    /// record which row the focused node occupies, if it is visible.
    pub fn render(&mut self) -> (rows: Vec<RenderedRow>)
        requires
            old(self).wf(),
            2 * old(self).model.lsp_items@.len() <= usize::MAX,
        ensures
            final(self).model == old(self).model,
            final(self).collapsed == old(self).collapsed,
            final(self).focus == old(self).focus,
            final(self).wf(),
            rows@ == view_rows(*old(self)),
            final(self).focused_row == match old(self).focus {
                Some(f) => match pos_of(rows@, f) {
                    Some(p) => Some(p as usize),
                    None => None::<usize>,
                },
                None => None::<usize>,
            },
    {
        let ghost items = self.model.lsp_items@;
        let ghost roots_seq = self.model.roots@;
        let mut rows: Vec<RenderedRow> = Vec::new();
        self.focused_row = None;
        let root_count = self.model.roots.len();
        let mut r: usize = 0;
        let ghost mut acc = Seq::<RenderedRow>::empty();
        while r < root_count
            invariant
                self.wf(),
                self.model == old(self).model,
                self.collapsed == old(self).collapsed,
                self.focus == old(self).focus,
                items == self.model.lsp_items@,
                roots_seq == self.model.roots@,
                root_count == roots_seq.len(),
                2 * items.len() <= usize::MAX,
                r <= root_count,
                rows@ == acc,
                rows_of_roots(items, roots_seq, self.collapsed@, self.focus, 0) == acc
                    + rows_of_roots(items, roots_seq, self.collapsed@, self.focus, r as int),
            decreases root_count - r,
        {
            let root = self.model.roots[r];
            proof {
                assert(root.0 < items.len());
            }
            self.render_rows(root, 0, &mut rows);
            proof {
                let rrows = rows_of(items, self.collapsed@, self.focus, root.0 as int, 0);
                assert(rows_of_roots(items, roots_seq, self.collapsed@, self.focus, r as int)
                    == rrows + rows_of_roots(
                    items,
                    roots_seq,
                    self.collapsed@,
                    self.focus,
                    r as int + 1,
                ));
                acc = acc + rrows;
                assert(rows_of_roots(items, roots_seq, self.collapsed@, self.focus, 0) =~= acc
                    + rows_of_roots(
                    items,
                    roots_seq,
                    self.collapsed@,
                    self.focus,
                    r as int + 1,
                ));
            }
            r += 1;
        }
        proof {
            assert(rows_of_roots(items, roots_seq, self.collapsed@, self.focus, root_count as int)
                =~= Seq::<RenderedRow>::empty());
            assert(rows@ =~= rows_of_roots(items, roots_seq, self.collapsed@, self.focus, 0));
        }
        let focus = self.focus;
        match focus {
            Some(f) => {
                let n = rows.len();
                let mut k: usize = 0;
                while k < n
                    invariant
                        self.wf(),
                        self.model == old(self).model,
                        self.collapsed == old(self).collapsed,
                        self.focus == old(self).focus,
                        self.focus == Some(f),
                        rows@ == view_rows(*old(self)),
                        n == rows@.len(),
                        k <= n,
                        forall|t: int| 0 <= t < k ==> (#[trigger] rows@[t]).index != f,
                        self.focused_row is None,
                    decreases n - k,
                {
                    if rows[k].index.0 == f.0 {
                        self.focused_row = Some(k);
                        proof {
                            assert(rows@[k as int].index == f);
                            lemma_pos_of_char(rows@, f);
                            match pos_of(rows@, f) {
                                Some(p) => {
                                    assert(p == k as int);
                                },
                                None => {
                                    assert(false);
                                },
                            }
                        }
                        return rows;
                    }
                    k += 1;
                }
                proof {
                    lemma_pos_of_char(rows@, f);
                    match pos_of(rows@, f) {
                        Some(p) => {
                            assert(rows@[p].index != f);
                            assert(false);
                        },
                        None => {},
                    }
                }
            },
            None => {},
        }
        rows
    }
}

} // verus!
