//! Building an arena from the nested symbol payload: one depth-first pass
//! that assigns handles in pre-order, records each node's parent and rank
//! before recursing, and backfills the child list once the children exist.

use vstd::prelude::*;
use crate::symbol::{Symbol, SymbolInfo, flat_one, flat_list, lemma_flat_list_take_step};
use crate::tree::Index;
use crate::lsp_tree::{Item, LspTreeModel, kids_bounded, kid_follows, links_ok, preorder_ok,
    root_follows, sub_end, lemma_sub_end_agree};

verus! {

/// The nodes of `[a, b)` form one complete subtree rooted at `a`, laid out
/// in pre-order and internally linked: child handles stay inside the
/// segment and point back at their owner, every node but the segment root
/// has its parent inside the segment, the first child of a node follows it
/// directly, and every further child starts where its elder sibling's
/// subtree ends.
pub open spec fn seg_wf(items: Seq<Item>, a: int, b: int) -> bool {
    &&& forall|i: int| a <= i < b ==> (#[trigger] items[i]).ix == Index(i as usize)
    &&& forall|i: int, j: int|
        a <= i < b && 0 <= j < items[i].children@.len() ==> {
            let c = (#[trigger] items[i].children@[j]).0;
            i < c && c < b
        }
    &&& forall|i: int, j: int|
        a <= i < b && 0 <= j < items[i].children@.len() ==> {
            let c = (#[trigger] items[i].children@[j]).0 as int;
            &&& items[c].parent == Some(Index(i as usize))
            &&& items[c].child_ix == j
        }
    &&& forall|i: int|
        a < i < b ==> match (#[trigger] items[i]).parent {
            Some(p) => {
                &&& a <= p.0 < i
                &&& items[i].child_ix < items[p.0 as int].children@.len()
                &&& items[p.0 as int].children@[items[i].child_ix as int] == Index(i as usize)
            },
            None => false,
        }
    &&& forall|i: int|
        a <= i < b && items[i].children@.len() > 0 ==> (#[trigger] items[i]).children@[0].0 == i
            + 1
    &&& forall|i: int, j: int|
        a <= i < b && 1 <= j < items[i].children@.len() ==> #[trigger] kid_follows(items, i, j)
}

/// The store with the child list of node `a` replaced by `kids` and nothing
/// else touched.
pub open spec fn with_kids(items: Seq<Item>, a: int, kids: Vec<Index>) -> Seq<Item> {
    items.update(
        a,
        Item {
            item: items[a].item,
            children: kids,
            ix: items[a].ix,
            child_ix: items[a].child_ix,
            parent: items[a].parent,
        },
    )
}

/// Append the subtree of `sym` to the store in pre-order: the node itself
/// first, under the given parent handle and sibling rank, then each child's
/// subtree in order, backfilling the completed child list at the end.
#[verifier::rlimit(100)]
#[verifier::spinoff_prover]
fn build_sub(items: &mut Vec<Item>, sym: &Symbol, parent: Option<Index>, child_ix: usize) -> (ix:
    Index)
    requires
        kids_bounded(old(items)@),
    ensures
        ix.0 == old(items)@.len(),
        final(items)@.len() == old(items)@.len() + flat_one(*sym).len(),
        final(items)@.subrange(0, old(items)@.len() as int) == old(items)@,
        kids_bounded(final(items)@),
        seg_wf(final(items)@, ix.0 as int, final(items)@.len() as int),
        sub_end(final(items)@, ix.0 as int) == final(items)@.len(),
        final(items)@[ix.0 as int].parent == parent,
        final(items)@[ix.0 as int].child_ix == child_ix,
        forall|t: int|
            old(items)@.len() <= t < final(items)@.len() ==> (#[trigger] final(items)@[t]).item@
                == flat_one(*sym)[t - old(items)@.len()],
    decreases *sym,
{
    let a = items.len();
    let ghost items0 = items@;
    items.push(
        Item {
            item: SymbolInfo {
                name: sym.info.name.clone(),
                kind: sym.info.kind,
                range: sym.info.range,
            },
            children: Vec::new(),
            ix: Index(a),
            child_ix,
            parent,
        },
    );
    proof {
        assert(items@.subrange(0, a as int) =~= items0);
        assert forall|i: int, j: int|
            0 <= i < items@.len() && 0 <= j < items@[i].children@.len() implies {
            let c = (#[trigger] items@[i].children@[j]).0;
            i < c && c < items@.len()
        } by {
            assert(i < items0.len());
            assert(items@[i] == items0[i]);
        }
    }
    let mut kids: Vec<Index> = Vec::new();
    let mut j: usize = 0;
    while j < sym.children.len()
        invariant
            a == items0.len(),
            a < items@.len(),
            j <= sym.children@.len(),
            kids@.len() == j,
            items@.subrange(0, a as int) == items0,
            items@[a as int].ix == Index(a),
            items@[a as int].parent == parent,
            items@[a as int].child_ix == child_ix,
            items@[a as int].children@.len() == 0,
            items@[a as int].item@ == sym.info@,
            kids_bounded(items@),
            kids_bounded(with_kids(items@, a as int, kids)),
            seg_wf(with_kids(items@, a as int, kids), a as int, items@.len() as int),
            sub_end(with_kids(items@, a as int, kids), a as int) == items@.len(),
            items@.len() == a + 1 + flat_list(sym.children@.take(j as int)).len(),
            forall|t: int|
                a < t < items@.len() ==> (#[trigger] items@[t]).item@ == flat_list(
                    sym.children@.take(j as int),
                )[t - (a + 1)],
        decreases sym.children@.len() - j,
    {
        let ghost items_pre = items@;
        let ghost kids_pre = kids;
        let ghost f_pre = with_kids(items_pre, a as int, kids_pre);
        let ghost b = items@.len() as int;
        proof {
            assert(decreases_to!(*sym => sym.children@[j as int]));
        }
        let cix = build_sub(items, &sym.children[j], Some(Index(a)), j);
        kids.push(cix);
        proof {
            let ghost items_post = items@;
            let ghost bp = items_post.len() as int;
            let ghost f_post = with_kids(items_post, a as int, kids);
            let child = sym.children@[j as int];
            lemma_flat_list_take_step(sym.children@, j as int);
            assert(items_post.subrange(0, a as int) =~= items0) by {
                assert forall|t: int| 0 <= t < a implies items_post.subrange(0, b)[t]
                    == items0[t] by {}
                assert(items_post.subrange(0, b) == items_pre);
            }
            assert(items_post[a as int] == items_pre[a as int]) by {
                assert(items_post.subrange(0, b)[a as int] == items_pre[a as int]);
            }
            // the prefix of the store, hence the old part of `f`, is untouched
            assert forall|t: int| 0 <= t < b && t != a implies items_post[t] == items_pre[t] by {
                assert(items_post.subrange(0, b)[t] == items_pre[t]);
            }
            assert(kids@ == kids_pre@.push(cix));
            assert(f_post[a as int].children@ == kids@);
            assert forall|t: int| 0 <= t < b && t != a implies f_post[t] == f_pre[t] by {}
            assert forall|t: int| b <= t < bp implies f_post[t] == items_post[t] by {}
            // bounds of every child handle in the patched store
            assert forall|i: int, jj: int|
                0 <= i < bp && 0 <= jj < f_post[i].children@.len() implies {
                let c = (#[trigger] f_post[i].children@[jj]).0;
                i < c && c < bp
            } by {
                if i == a {
                    if jj < kids_pre@.len() {
                        assert(f_pre[a as int].children@[jj] == kids_pre@[jj]);
                    } else {
                        assert(f_post[i].children@[jj] == cix);
                    }
                } else {
                    assert(f_post[i] == items_post[i]);
                }
            }
            // sub_end agrees between the stores on everything after `a`
            assert forall|c: int| a < c < bp implies sub_end(f_post, c) == sub_end(
                items_post,
                c,
            ) by {
                lemma_sub_end_agree(items_post, f_post, c);
            }
            assert forall|c: int| a < c < b implies sub_end(f_post, c) == sub_end(f_pre, c) by {
                lemma_sub_end_agree(f_pre, f_post, c);
            }
            // the new child's subtree carries its own layout
            assert(seg_wf(items_post, b, bp));
            assert(sub_end(f_post, b) == bp);
            // node `a`: first child starts right after it, later children
            // start where their elder sibling's subtree ends
            if kids_pre@.len() == 0 {
                assert(b == a + 1);
                assert(f_post[a as int].children@[0].0 == a + 1);
            } else {
                assert(f_pre[a as int].children@[0] == kids_pre@[0]);
                assert(f_post[a as int].children@[0].0 == a + 1);
            }
            assert forall|jj: int| 1 <= jj < kids@.len() implies #[trigger] kid_follows(
                f_post,
                a as int,
                jj,
            ) by {
                if jj < kids_pre@.len() {
                    assert(kid_follows(f_pre, a as int, jj));
                    assert(f_pre[a as int].children@[jj] == kids_pre@[jj]);
                    assert(f_pre[a as int].children@[jj - 1] == kids_pre@[jj - 1]);
                } else {
                    // the freshly appended child
                    let last = kids_pre@[jj - 1].0 as int;
                    assert(f_pre[a as int].children@.len() == jj);
                    assert(f_pre[a as int].children@[jj - 1] == kids_pre@[jj - 1]);
                    assert(sub_end(f_pre, a as int) == sub_end(f_pre, last));
                    assert(sub_end(f_post, last) == b);
                    assert(cix.0 == b);
                }
            }
            assert(seg_wf(f_post, a as int, bp)) by {
                assert forall|i: int| a <= i < bp implies (#[trigger] f_post[i]).ix == Index(
                    i as usize,
                ) by {
                    if i == a {
                    } else if i < b {
                        assert(f_post[i] == f_pre[i]);
                    } else {
                        assert(f_post[i] == items_post[i]);
                    }
                }
                assert forall|i: int, jj: int|
                    a <= i < bp && 0 <= jj < f_post[i].children@.len() implies {
                    let c = (#[trigger] f_post[i].children@[jj]).0 as int;
                    &&& f_post[c].parent == Some(Index(i as usize))
                    &&& f_post[c].child_ix == jj
                } by {
                    if i == a {
                        if jj < kids_pre@.len() {
                            assert(f_pre[a as int].children@[jj] == kids_pre@[jj]);
                            let c = kids_pre@[jj].0 as int;
                            assert(f_post[c] == f_pre[c]);
                        } else {
                            assert(f_post[i].children@[jj] == cix);
                            assert(f_post[cix.0 as int] == items_post[cix.0 as int]);
                        }
                    } else if i < b {
                        assert(f_post[i] == f_pre[i]);
                        let c = f_pre[i].children@[jj].0 as int;
                        assert(f_post[c] == f_pre[c]);
                    } else {
                        assert(f_post[i] == items_post[i]);
                        let c = items_post[i].children@[jj].0 as int;
                        assert(f_post[c] == items_post[c]);
                    }
                }
                assert forall|i: int| a < i < bp implies match (#[trigger] f_post[i]).parent {
                    Some(p) => {
                        &&& a <= p.0 < i
                        &&& f_post[i].child_ix < f_post[p.0 as int].children@.len()
                        &&& f_post[p.0 as int].children@[f_post[i].child_ix as int] == Index(
                            i as usize,
                        )
                    },
                    None => false,
                } by {
                    if i < b {
                        assert(f_post[i] == f_pre[i]);
                        match f_pre[i].parent {
                            Some(p) => {
                                if p.0 as int == a {
                                    assert(f_pre[a as int].children@[f_pre[i].child_ix as int]
                                        == Index(i as usize));
                                } else {
                                    assert(f_post[p.0 as int] == f_pre[p.0 as int]);
                                }
                            },
                            None => {},
                        }
                    } else if i == b {
                        assert(f_post[i] == items_post[i]);
                        assert(items_post[b].parent == Some(Index(a)));
                        assert(items_post[b].child_ix == j as int);
                        assert(f_post[a as int].children@[j as int] == cix);
                        assert(cix == Index(b as usize));
                    } else {
                        assert(f_post[i] == items_post[i]);
                        match items_post[i].parent {
                            Some(p) => {
                                assert(b <= p.0 < i);
                                assert(f_post[p.0 as int] == items_post[p.0 as int]);
                            },
                            None => {},
                        }
                    }
                }
                assert forall|i: int|
                    a <= i < bp && f_post[i].children@.len() > 0 implies (#[trigger] f_post[
                    i
                ]).children@[0].0 == i + 1 by {
                    if i == a {
                    } else if i < b {
                        assert(f_post[i] == f_pre[i]);
                    } else {
                        assert(f_post[i] == items_post[i]);
                    }
                }
                assert forall|i: int, jj: int|
                    a <= i < bp && 1 <= jj < f_post[i].children@.len() implies #[trigger] kid_follows(
                    f_post,
                    i,
                    jj,
                ) by {
                    if i == a {
                    } else if i < b {
                        assert(f_post[i] == f_pre[i]);
                        assert(kid_follows(f_pre, i, jj));
                        let c = f_pre[i].children@[jj - 1].0 as int;
                        assert(a < c < b);
                        assert(sub_end(f_post, c) == sub_end(f_pre, c));
                    } else {
                        assert(f_post[i] == items_post[i]);
                        assert(kid_follows(items_post, i, jj));
                        let c = items_post[i].children@[jj - 1].0 as int;
                        assert(b <= i < bp);
                        assert(i < c < bp);
                        assert(sub_end(f_post, c) == sub_end(items_post, c));
                    }
                }
            }
            assert(sub_end(f_post, a as int) == bp) by {
                assert(f_post[a as int].children@.len() == kids@.len());
                assert(f_post[a as int].children@[kids@.len() - 1] == cix);
                assert(sub_end(f_post, cix.0 as int) == bp);
            }
            // the payload laid down so far is the flattened prefix
            assert forall|t: int| a < t < bp implies (#[trigger] items_post[t]).item@ == flat_list(
                sym.children@.take(j as int + 1),
            )[t - (a + 1)] by {
                let pre = flat_list(sym.children@.take(j as int));
                assert(flat_list(sym.children@.take(j as int + 1)) == pre + flat_one(child));
                if t < b {
                    assert(items_post[t] == items_pre[t]);
                    assert(items_pre[t].item@ == pre[t - (a + 1)]);
                } else {
                    assert(items_post[t].item@ == flat_one(child)[t - b]);
                }
            }
        }
        j += 1;
    }
    proof {
        assert(sym.children@.take(j as int) =~= sym.children@);
    }
    let ghost items_last = items@;
    let ghost f_final = with_kids(items@, a as int, kids);
    items[a].children = kids;
    proof {
        assert(items@ =~= f_final);
        assert(items@.subrange(0, a as int) =~= items0) by {
            assert forall|t: int| 0 <= t < a implies items@[t] == items0[t] by {
                assert(items_last.subrange(0, a as int)[t] == items0[t]);
            }
        }
        assert(flat_one(*sym) == seq![sym.info@] + flat_list(sym.children@));
        assert forall|t: int| a <= t < items@.len() implies (#[trigger] items@[t]).item@
            == flat_one(*sym)[t - a] by {
            if t == a {
                assert(items@[a as int].item == items_last[a as int].item);
            } else {
                assert(items@[t] == items_last[t]);
                assert(items_last[t].item@ == flat_list(sym.children@)[t - (a + 1)]);
            }
        }
    }
    Index(a)
}

/// Appending one complete subtree to a well-formed forest, and its root
/// handle to the root list, keeps every link of the forest invariant intact.
#[verifier::rlimit(100)]
#[verifier::spinoff_prover]
proof fn lemma_extend_links(
    items_pre: Seq<Item>,
    items_post: Seq<Item>,
    roots_pre: Seq<Index>,
    ix: Index,
)
    requires
        kids_bounded(items_pre),
        links_ok(items_pre, roots_pre),
        ix.0 == items_pre.len(),
        items_pre.len() < items_post.len(),
        items_post.subrange(0, items_pre.len() as int) == items_pre,
        kids_bounded(items_post),
        seg_wf(items_post, ix.0 as int, items_post.len() as int),
        items_post[ix.0 as int].parent is None,
        items_post[ix.0 as int].child_ix == roots_pre.len(),
    ensures
        links_ok(items_post, roots_pre.push(ix)),
{
    let a = items_pre.len() as int;
    let bp = items_post.len() as int;
    let k = roots_pre.len() as int;
    let roots_post = roots_pre.push(ix);
    assert forall|t: int| 0 <= t < a implies items_post[t] == items_pre[t] by {
        assert(items_post.subrange(0, a)[t] == items_pre[t]);
    }
    assert forall|i: int| 0 <= i < bp implies (#[trigger] items_post[i]).ix == Index(
        i as usize,
    ) by {
        if i < a {
            assert(items_post[i] == items_pre[i]);
        }
    }
    assert forall|i: int, jj: int|
        0 <= i < bp && 0 <= jj < items_post[i].children@.len() implies {
        let c = (#[trigger] items_post[i].children@[jj]).0 as int;
        &&& items_post[c].parent == Some(Index(i as usize))
        &&& items_post[c].child_ix == jj
    } by {
        if i < a {
            assert(items_post[i] == items_pre[i]);
            let c = items_pre[i].children@[jj].0 as int;
            assert(c < a);
            assert(items_post[c] == items_pre[c]);
        }
    }
    assert forall|i: int| 0 <= i < bp implies match (#[trigger] items_post[i]).parent {
        Some(p) => {
            &&& p.0 < i
            &&& items_post[i].child_ix < items_post[p.0 as int].children@.len()
            &&& items_post[p.0 as int].children@[items_post[i].child_ix as int] == Index(
                i as usize,
            )
        },
        None => {
            &&& items_post[i].child_ix < roots_post.len()
            &&& roots_post[items_post[i].child_ix as int] == Index(i as usize)
        },
    } by {
        if i < a {
            assert(items_post[i] == items_pre[i]);
            match items_pre[i].parent {
                Some(p) => {
                    assert(items_post[p.0 as int] == items_pre[p.0 as int]);
                },
                None => {
                    assert(roots_post[items_pre[i].child_ix as int] == roots_pre[items_pre[
                        i
                    ].child_ix as int]);
                },
            }
        } else if i == a {
            assert(roots_post[k] == ix);
        } else {
            match items_post[i].parent {
                Some(p) => {
                    assert(a <= p.0 < i);
                },
                None => {
                    assert(false);
                },
            }
        }
    }
    assert forall|r: int| 0 <= r < roots_post.len() implies {
        let x = (#[trigger] roots_post[r]).0 as int;
        &&& x < bp
        &&& items_post[x].parent is None
        &&& items_post[x].child_ix == r
    } by {
        if r < k {
            assert(roots_post[r] == roots_pre[r]);
            let x = roots_pre[r].0 as int;
            assert(x < a);
            assert(items_post[x] == items_pre[x]);
        } else {
            assert(roots_post[r] == ix);
        }
    }
}

/// Appending one complete subtree to a well-formed forest keeps the
/// pre-order layout: the new root starts where the old forest ended and its
/// subtree ends the new store.
#[verifier::rlimit(100)]
#[verifier::spinoff_prover]
proof fn lemma_extend_preorder(
    items_pre: Seq<Item>,
    items_post: Seq<Item>,
    roots_pre: Seq<Index>,
    ix: Index,
)
    requires
        kids_bounded(items_pre),
        links_ok(items_pre, roots_pre),
        preorder_ok(items_pre, roots_pre),
        ix.0 == items_pre.len(),
        items_pre.len() < items_post.len(),
        items_post.subrange(0, items_pre.len() as int) == items_pre,
        kids_bounded(items_post),
        seg_wf(items_post, ix.0 as int, items_post.len() as int),
        sub_end(items_post, ix.0 as int) == items_post.len(),
    ensures
        preorder_ok(items_post, roots_pre.push(ix)),
{
    let a = items_pre.len() as int;
    let bp = items_post.len() as int;
    let k = roots_pre.len() as int;
    let roots_post = roots_pre.push(ix);
    assert forall|t: int| 0 <= t < a implies items_post[t] == items_pre[t] by {
        assert(items_post.subrange(0, a)[t] == items_pre[t]);
    }
    assert forall|c: int| 0 <= c < a implies sub_end(items_post, c) == sub_end(items_pre, c) by {
        lemma_sub_end_agree(items_pre, items_post, c);
    }
    assert forall|i: int| 0 <= i < bp && items_post[i].children@.len() > 0 implies (
    #[trigger] items_post[i]).children@[0].0 == i + 1 by {
        if i < a {
            assert(items_post[i] == items_pre[i]);
        }
    }
    assert forall|i: int, jj: int|
        0 <= i < bp && 1 <= jj < items_post[i].children@.len() implies #[trigger] kid_follows(
        items_post,
        i,
        jj,
    ) by {
        if i < a {
            assert(items_post[i] == items_pre[i]);
            assert(kid_follows(items_pre, i, jj));
            let c = items_pre[i].children@[jj - 1].0 as int;
            assert(c < a);
        } else {
            assert(kid_follows(items_post, i, jj));
        }
    }
    assert forall|r: int| 1 <= r < roots_post.len() implies #[trigger] root_follows(
        items_post,
        roots_post,
        r,
    ) by {
        if r < k {
            assert(root_follows(items_pre, roots_pre, r));
            assert(roots_post[r] == roots_pre[r]);
            assert(roots_post[r - 1] == roots_pre[r - 1]);
            let c = roots_pre[r - 1].0 as int;
            assert(c < a);
        } else {
            // the new root starts where the previous forest ended
            assert(roots_post[r] == ix);
            if k == 0 {
            } else {
                let c = roots_pre[k - 1].0 as int;
                assert(sub_end(items_pre, c) == a);
                assert(roots_post[r - 1] == roots_pre[k - 1]);
            }
        }
    }
    assert(roots_post[roots_post.len() - 1] == ix);
    if k == 0 {
        // an empty root list means an empty store, so the new root sits at 0
        assert(a == 0);
        assert(roots_post[0] == ix);
    }
}

impl LspTreeModel {
    /// Build the arena for a nested symbol forest in one depth-first pass.
    /// The nodes come out in pre-order — the arena's payload sequence is
    /// exactly the flattening of the input — with every parent, rank and
    /// child link in place, and one root handle per top-level symbol.
    #[verifier::rlimit(100)]
    #[verifier::spinoff_prover]
    pub fn new(symbols: Vec<Symbol>) -> (m: Self)
        ensures
            m.wf(),
            m.roots@.len() == symbols@.len(),
            m.lsp_items@.len() == flat_list(symbols@).len(),
            m.payloads() == flat_list(symbols@),
            forall|t: int|
                0 <= t < m.lsp_items@.len() ==> (#[trigger] m.lsp_items@[t]).item@ == flat_list(
                    symbols@,
                )[t],
    {
        let mut items: Vec<Item> = Vec::new();
        let mut roots: Vec<Index> = Vec::new();
        let mut k: usize = 0;
        while k < symbols.len()
            invariant
                k <= symbols@.len(),
                roots@.len() == k,
                kids_bounded(items@),
                links_ok(items@, roots@),
                preorder_ok(items@, roots@),
                items@.len() == flat_list(symbols@.take(k as int)).len(),
                forall|t: int|
                    0 <= t < items@.len() ==> (#[trigger] items@[t]).item@ == flat_list(
                        symbols@.take(k as int),
                    )[t],
            decreases symbols@.len() - k,
        {
            let ghost items_pre = items@;
            let ghost roots_pre = roots@;
            let ghost a = items@.len() as int;
            let ix = build_sub(&mut items, &symbols[k], None, k);
            roots.push(ix);
            proof {
                let items_post = items@;
                let bp = items_post.len() as int;
                let sym = symbols@[k as int];
                lemma_flat_list_take_step(symbols@, k as int);
                assert(roots@ == roots_pre.push(ix));
                lemma_extend_links(items_pre, items_post, roots_pre, ix);
                lemma_extend_preorder(items_pre, items_post, roots_pre, ix);
                assert forall|t: int| 0 <= t < bp implies (#[trigger] items_post[t]).item@
                    == flat_list(symbols@.take(k as int + 1))[t] by {
                    let pre = flat_list(symbols@.take(k as int));
                    assert(flat_list(symbols@.take(k as int + 1)) == pre + flat_one(sym));
                    if t < a {
                        assert(items_post.subrange(0, a)[t] == items_pre[t]);
                    } else {
                        assert(items_post[t].item@ == flat_one(sym)[t - a]);
                    }
                }
            }
            k += 1;
        }
        proof {
            assert(symbols@.take(k as int) =~= symbols@);
        }
        let m = LspTreeModel { roots, lsp_items: items };
        proof {
            assert(m.payloads() =~= flat_list(symbols@));
        }
        m
    }
}

} // verus!
