use tree_view::lsp_tree::LspTreeModel;
use tree_view::render::{RenderedRow, RowMarker};
use tree_view::symbol::{flatten_symbols, Symbol, SymbolInfo, SymbolRange};
use tree_view::tree::{Index, TreeItem};
use tree_view::view::{Event, EventResult, KeyEvent, TreeView};

fn range(line: u32) -> SymbolRange {
    SymbolRange { start_line: line, start_character: 0, end_line: line, end_character: 5 }
}

fn sym(name: &str, kind: u32, line: u32, children: Vec<Symbol>) -> Symbol {
    Symbol { info: SymbolInfo { name: name.to_string(), kind, range: range(line) }, children }
}

/// The three-level sample forest: A -> [B, C], B -> [D].
fn sample() -> Vec<Symbol> {
    vec![sym("A", 5, 0, vec![sym("B", 6, 1, vec![sym("D", 13, 2, vec![])]), sym(
        "C",
        6,
        3,
        vec![],
    )])]
}

/// Two roots with a deeper chain: E -> [F -> [G, H]], I.
fn forest() -> Vec<Symbol> {
    vec![
        sym("E", 2, 0, vec![sym("F", 5, 1, vec![sym("G", 13, 2, vec![]), sym(
            "H",
            13,
            3,
            vec![],
        )])]),
        sym("I", 2, 4, vec![]),
    ]
}

fn names_of(model: &LspTreeModel) -> Vec<String> {
    let mut names = Vec::new();
    for item in &model.lsp_items {
        names.push(item.item.name.clone());
    }
    names
}

#[test]
fn forest_invariant_holds_for_built_arena() {
    let model = LspTreeModel::new(sample());
    for (i, item) in model.lsp_items.iter().enumerate() {
        assert_eq!(item.ix, Index(i));
        match item.parent {
            Some(p) => {
                let parent = model.get_item(p);
                assert_eq!(parent.children[item.child_ix], Index(i));
            }
            None => {
                assert_eq!(model.get_roots()[item.child_ix], Index(i));
            }
        }
        for (j, c) in item.children.iter().enumerate() {
            let child = model.get_item(*c);
            assert_eq!(child.parent, Some(Index(i)));
            assert_eq!(child.child_ix, j);
            assert!(c.0 > i);
        }
    }
    for (r, root) in model.get_roots().iter().enumerate() {
        let item = model.get_item(*root);
        assert!(item.parent.is_none());
        assert_eq!(item.child_ix, r);
    }
}

#[test]
fn adapter_stores_payloads_in_preorder() {
    let syms = forest();
    let flat = flatten_symbols(&syms);
    let model = LspTreeModel::new(syms);
    assert_eq!(model.row_count(), flat.len());
    assert_eq!(model.column_count(), 1);
    for (i, info) in flat.iter().enumerate() {
        let item = model.get_item(Index(i));
        assert_eq!(item.item.name, info.name);
        assert_eq!(item.item.kind, info.kind);
        assert_eq!(item.item.range, info.range);
    }
    assert_eq!(names_of(&model), vec!["E", "F", "G", "H", "I"]);
}

#[test]
fn move_down_visits_every_node_in_preorder() {
    let syms = forest();
    let flat = flatten_symbols(&syms);
    let mut view = TreeView::new(LspTreeModel::new(syms));
    let mut visited: Vec<String> = Vec::new();
    loop {
        let before = view.focus;
        view.move_cursor_down();
        if view.focus == before {
            break;
        }
        let ix = view.focus.unwrap();
        visited.push(view.get_item(ix).render().to_string());
    }
    let expected: Vec<String> = flat.iter().map(|s| s.name.clone()).collect();
    assert_eq!(visited, expected);
}

#[test]
fn sibling_stepping_is_symmetric() {
    let model = LspTreeModel::new(forest());
    for i in 0..model.row_count() {
        let ix = Index(i);
        if let Some(prev) = model.prev_sibling(ix) {
            assert_eq!(model.next_sibling(prev), Some(ix));
        }
        if let Some(next) = model.next_sibling(ix) {
            assert_eq!(model.prev_sibling(next), Some(ix));
        }
    }
    // E -> [F -> [G, H]], I: G and H are siblings, E and I are root siblings
    assert_eq!(model.next_sibling(Index(2)), Some(Index(3)));
    assert_eq!(model.prev_sibling(Index(3)), Some(Index(2)));
    assert_eq!(model.next_sibling(Index(0)), Some(Index(4)));
    assert_eq!(model.prev_sibling(Index(0)), None);
    assert_eq!(model.next_sibling(Index(3)), None);
}

#[test]
fn uncle_stepping_crosses_levels_and_terminates() {
    let model = LspTreeModel::new(forest());
    // H (index 3) is F's last child; its next uncle is the next root, I
    assert_eq!(model.next_uncle(Index(3)), Some(Index(4)));
    // F (index 1) is E's only child; E's next sibling is I
    assert_eq!(model.next_uncle(Index(1)), Some(Index(4)));
    // roots have no uncles, and past the last subtree there is none
    assert_eq!(model.next_uncle(Index(0)), None);
    assert_eq!(model.next_uncle(Index(4)), None);
    assert_eq!(model.prev_uncle(Index(3)), None);
    // G's previous uncle walk runs off the root level and answers None
    assert_eq!(model.prev_uncle(Index(2)), None);
    assert_eq!(model.depth(Index(0)), 0);
    assert_eq!(model.depth(Index(1)), 1);
    assert_eq!(model.depth(Index(2)), 2);
    assert_eq!(model.depth(Index(4)), 0);
}

#[test]
fn focus_callback_fires_with_the_node_left_behind() {
    // A -> [B, C], B -> [D]: indices A=0, B=1, D=2, C=3
    let mut view = TreeView::new(LspTreeModel::new(sample()));
    // first step focuses the first root without firing
    let notify = view.move_cursor_down();
    assert_eq!(view.focus, Some(Index(0)));
    assert_eq!(notify, None);
    // A -> B, fired with A
    let notify = view.move_cursor_down();
    assert_eq!(view.focus, Some(Index(1)));
    assert_eq!(notify, Some(Index(0)));
    // B has an expanded child, so B -> D, fired with B
    let notify = view.move_cursor_down();
    assert_eq!(view.focus, Some(Index(2)));
    assert_eq!(notify, Some(Index(1)));
    // D -> C, fired with D
    let notify = view.move_cursor_down();
    assert_eq!(view.focus, Some(Index(3)));
    assert_eq!(notify, Some(Index(2)));
    // no further node: focus stays, nothing fires
    let notify = view.move_cursor_down();
    assert_eq!(view.focus, Some(Index(3)));
    assert_eq!(notify, None);
}

#[test]
fn move_up_steps_to_sibling_then_parent() {
    let mut view = TreeView::new(LspTreeModel::new(sample()));
    // unfocused: an upward step focuses the first root and does not fire
    let notify = view.move_cursor_up();
    assert_eq!(view.focus, Some(Index(0)));
    assert_eq!(notify, None);
    // walk down to C (index 3), then back up
    view.move_cursor_down();
    view.move_cursor_down();
    view.move_cursor_down();
    assert_eq!(view.focus, Some(Index(3)));
    // C -> its previous sibling B, fired with the new node
    let notify = view.move_cursor_up();
    assert_eq!(view.focus, Some(Index(1)));
    assert_eq!(notify, Some(Index(1)));
    // B -> its parent A
    let notify = view.move_cursor_up();
    assert_eq!(view.focus, Some(Index(0)));
    assert_eq!(notify, Some(Index(0)));
    // A is the first node: nothing above, nothing fires
    let notify = view.move_cursor_up();
    assert_eq!(view.focus, Some(Index(0)));
    assert_eq!(notify, None);
}

#[test]
fn collapse_skips_exactly_the_descendants() {
    // E -> [F -> [G, H]], I: collapsing F hides G and H
    let mut view = TreeView::new(LspTreeModel::new(forest()));
    let expanded = view.render();
    assert_eq!(expanded.len(), 5);
    view.toggle_collapse(Index(1));
    let collapsed = view.render();
    assert_eq!(collapsed.len(), expanded.len() - 2);
    let shown: Vec<usize> = collapsed.iter().map(|r| r.index.0).collect();
    assert_eq!(shown, vec![0, 1, 4]);
    // collapsing the whole root subtree of E hides F, G and H
    view.toggle_collapse(Index(1));
    view.toggle_collapse(Index(0));
    let root_collapsed = view.render();
    assert_eq!(root_collapsed.len(), expanded.len() - 3);
    let shown: Vec<usize> = root_collapsed.iter().map(|r| r.index.0).collect();
    assert_eq!(shown, vec![0, 4]);
}

#[test]
fn double_toggle_restores_the_rendered_rows() {
    let mut view = TreeView::new(LspTreeModel::new(sample()));
    view.move_cursor_down();
    let before = view.render();
    view.toggle_collapse(Index(1));
    view.toggle_collapse(Index(1));
    let after = view.render();
    assert_eq!(before, after);
    assert_eq!(after.len(), 4);
}

#[test]
fn toggling_a_leaf_is_a_no_op() {
    let mut view = TreeView::new(LspTreeModel::new(sample()));
    let before = view.render();
    // D (index 2) is a leaf
    view.toggle_collapse(Index(2));
    assert!(!view.is_collapsed(Index(2)));
    let after = view.render();
    assert_eq!(before, after);
}

#[test]
fn empty_input_yields_an_empty_view() {
    let model = LspTreeModel::new(Vec::new());
    assert_eq!(model.row_count(), 0);
    assert!(model.get_roots().is_empty());
    assert_eq!(model.get_first(), None);
    let mut view = TreeView::new(model);
    let rows = view.render();
    assert_eq!(rows.len(), 0);
    let notify = view.move_cursor_down();
    assert_eq!(view.focus, None);
    assert_eq!(notify, None);
}

#[test]
fn rendered_rows_carry_indent_marker_and_focus() {
    let mut view = TreeView::new(LspTreeModel::new(sample()));
    view.move_cursor_down();
    view.move_cursor_down();
    assert_eq!(view.focus, Some(Index(1)));
    view.toggle_collapse(Index(1));
    let rows = view.render();
    assert_eq!(
        rows,
        vec![
            RenderedRow { index: Index(0), indent: 0, marker: RowMarker::Expanded, focused: false },
            RenderedRow { index: Index(1), indent: 2, marker: RowMarker::Collapsed, focused: true },
            RenderedRow { index: Index(3), indent: 2, marker: RowMarker::Leaf, focused: false },
        ]
    );
    assert_eq!(view.focused_row, Some(1));
    let labels: Vec<&str> = rows.iter().map(|r| view.get_item(r.index).render()).collect();
    assert_eq!(labels, vec!["A", "B", "C"]);
}

#[test]
fn indentation_grows_two_columns_per_level() {
    let mut view = TreeView::new(LspTreeModel::new(sample()));
    let rows = view.render();
    let indents: Vec<usize> = rows.iter().map(|r| r.indent).collect();
    assert_eq!(indents, vec![0, 2, 4, 2]);
    assert_eq!(view.focused_row, None);
}

#[test]
fn handle_event_maps_keys_to_actions() {
    let mut view = TreeView::new(LspTreeModel::new(sample()));
    let (result, notify) = view.handle_event(&Event::Key(KeyEvent::Char('q')));
    assert_eq!(result, EventResult::Close);
    assert_eq!(notify, None);
    let (result, notify) = view.handle_event(&Event::Key(KeyEvent::Down));
    assert_eq!(result, EventResult::Consumed);
    assert_eq!(notify, None);
    assert_eq!(view.focus, Some(Index(0)));
    let (result, notify) = view.handle_event(&Event::Key(KeyEvent::Down));
    assert_eq!(result, EventResult::Consumed);
    assert_eq!(notify, Some(Index(0)));
    assert_eq!(view.focus, Some(Index(1)));
    // enter collapses the focused node B, hiding D
    let (result, _) = view.handle_event(&Event::Key(KeyEvent::Enter));
    assert_eq!(result, EventResult::Consumed);
    assert!(view.is_collapsed(Index(1)));
    assert_eq!(view.render().len(), 3);
    let (result, notify) = view.handle_event(&Event::Key(KeyEvent::Up));
    assert_eq!(result, EventResult::Consumed);
    assert_eq!(notify, Some(Index(0)));
    assert_eq!(view.focus, Some(Index(0)));
    let (result, _) = view.handle_event(&Event::Key(KeyEvent::Char('x')));
    assert_eq!(result, EventResult::Ignored);
    let (result, _) = view.handle_event(&Event::Key(KeyEvent::OtherKey));
    assert_eq!(result, EventResult::Ignored);
    let (result, _) = view.handle_event(&Event::Other);
    assert_eq!(result, EventResult::Ignored);
}

#[test]
fn collapsed_node_blocks_downward_descent() {
    let mut view = TreeView::new(LspTreeModel::new(sample()));
    view.move_cursor_down();
    view.move_cursor_down();
    assert_eq!(view.focus, Some(Index(1)));
    view.toggle_collapse(Index(1));
    // B is collapsed: down skips D and lands on C
    let notify = view.move_cursor_down();
    assert_eq!(view.focus, Some(Index(3)));
    assert_eq!(notify, Some(Index(1)));
}

#[test]
fn tree_item_reports_the_node_shape() {
    let model = LspTreeModel::new(sample());
    let a = model.get_item(Index(0));
    assert_eq!(a.child_count(), 2);
    assert_eq!(a.child(0), Index(1));
    assert_eq!(a.child(1), Index(3));
    assert_eq!(a.data(0), Index(1));
    assert_eq!(a.index(), Index(0));
    assert_eq!(a.child_index(), 0);
    assert_eq!(a.parent(), None);
    assert_eq!(a.render(), "A");
    let d = model.get_item(Index(2));
    assert_eq!(d.child_count(), 0);
    assert_eq!(d.parent(), Some(Index(1)));
    assert_eq!(d.render(), "D");
    assert_eq!(model.parent(&Index(2)), Some(Index(1)));
}

#[test]
fn flatten_matches_a_direct_recursive_walk() {
    let flat = flatten_symbols(&sample());
    let names: Vec<&str> = flat.iter().map(|s| s.name.as_str()).collect();
    assert_eq!(names, vec!["A", "B", "D", "C"]);
    let kinds: Vec<u32> = flat.iter().map(|s| s.kind).collect();
    assert_eq!(kinds, vec![5, 6, 13, 6]);
    assert!(flatten_symbols(&Vec::new()).is_empty());
}
