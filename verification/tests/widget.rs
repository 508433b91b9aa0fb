use tree_view::tree::Index;
use tree_view::widget::{ChildRef, Focus, Generation, RowRef};

#[test]
fn generation_counts_up() {
    let mut g = Generation(0);
    g.inc();
    g.inc();
    assert_eq!(g, Generation(2));
    assert!(Generation(1) < Generation(2));
}

#[test]
fn child_ref_steps_left_and_right() {
    let c = ChildRef(3);
    assert_eq!(c.add(2), ChildRef(5));
    assert_eq!(c.sub(3), ChildRef(0));
    assert_eq!(c.add(0), c);
}

#[test]
fn row_ref_equality_goes_by_the_integer() {
    assert_eq!(RowRef(7), RowRef(7));
    assert_ne!(RowRef(7), RowRef(8));
    assert_eq!(Index(7), Index(7));
}

#[test]
fn fresh_focus_holds_nothing() {
    let f = Focus::default();
    assert_eq!(f.row, None);
}
