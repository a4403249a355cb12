use std::rc::Rc;

use lint_engine::config::Dialect;
use lint_engine::fix::{AnchorEditInfo, EditDirective, EditType, LintFix};
use lint_engine::plan::compute_anchor_edit_info;
use lint_engine::rewrite::apply_fixes;
use lint_engine::segment::{same_all, share_all, ErasedSegment, Segment};

fn leaf(uuid: u128, raw: &str) -> ErasedSegment {
    Segment::with_uuid(uuid, "word", raw, Vec::new())
}

fn node(uuid: u128, children: Vec<ErasedSegment>) -> ErasedSegment {
    Segment::with_uuid(uuid, "node", "", children)
}

/// file(1) [ a(2), group(3) [ b(4), c(5) ], d(6) ]
fn sample() -> ErasedSegment {
    node(1, vec![leaf(2, "a"), node(3, vec![leaf(4, "b"), leaf(5, "c")]), leaf(6, "d")])
}

fn raws(tree: &ErasedSegment) -> String {
    let mut out = String::new();
    out.push_str(&tree.raw);
    for child in &tree.segments {
        out.push_str(&raws(child));
    }
    out
}

fn rewrite(tree: &ErasedSegment, fixes: Vec<LintFix>) -> (ErasedSegment, usize, usize, bool) {
    apply_fixes(tree, Dialect::Ansi, &compute_anchor_edit_info(fixes))
}

#[test]
fn same_goes_by_value() {
    let tree = sample();
    let twin = sample();
    assert_eq!(twin, tree);
    assert!(tree.same(&twin));
    assert!(tree.same(&tree.clone()));
    assert_eq!(tree.get_uuid(), 1);
    let other =
        node(1, vec![leaf(2, "a"), node(3, vec![leaf(4, "B"), leaf(5, "c")]), leaf(6, "d")]);
    assert!(!tree.same(&other));
    let other =
        node(1, vec![leaf(2, "a"), node(3, vec![leaf(4, "b"), leaf(9, "c")]), leaf(6, "d")]);
    assert!(!tree.same(&other));
    let other = node(1, vec![leaf(2, "a"), node(3, vec![leaf(4, "b")]), leaf(6, "d")]);
    assert!(!tree.same(&other));
    let other = Segment::with_uuid(1, "x", "", share_all(&tree.segments));
    assert!(!tree.same(&other));
    assert!(same_all(&tree.segments, &share_all(&tree.segments)));
    assert!(same_all(&tree.segments, &sample().segments));
    assert!(!same_all(&tree.segments, &Vec::new()));
}

#[test]
fn a_rewrite_shares_what_it_does_not_change() {
    let tree = sample();
    let (after, _, _, _) = rewrite(&tree, vec![LintFix::delete(6)]);
    assert!(!Rc::ptr_eq(&after, &tree));
    assert!(Rc::ptr_eq(&after.segments[0], &tree.segments[0]));
    assert!(Rc::ptr_eq(&after.segments[1], &tree.segments[1]));
    let (after, _, _, _) = rewrite(&tree, vec![LintFix::delete(5)]);
    assert!(Rc::ptr_eq(&after.segments[0], &tree.segments[0]));
    assert!(!Rc::ptr_eq(&after.segments[1], &tree.segments[1]));
    assert!(Rc::ptr_eq(&after.segments[1].segments[0], &tree.segments[1].segments[0]));
    assert!(Rc::ptr_eq(&after.segments[2], &tree.segments[2]));
    let (after, applied, _, _) = rewrite(&tree, vec![LintFix::delete(99)]);
    assert_eq!(applied, 0);
    assert!(Rc::ptr_eq(&after, &tree));
    let new = leaf(20, "x");
    let (after, _, _, _) = rewrite(&tree, vec![LintFix::replace(2, vec![new.clone()])]);
    assert!(Rc::ptr_eq(&after.segments[0], &new));
}

#[test]
fn new_segments_draw_their_anchors() {
    let a = Segment::new("word", "a", Vec::new());
    let b = Segment::new("word", "a", vec![leaf(1, "x")]);
    assert_eq!(a.kind, "word");
    assert_eq!(a.raw, "a");
    assert!(a.segments.is_empty());
    assert_eq!(b.segments, vec![leaf(1, "x")]);
    assert_ne!(a.uuid, b.uuid);
}

#[test]
fn an_info_counts_its_fixes_by_kind() {
    let mut info = AnchorEditInfo::new();
    assert_eq!(info.total(), 0);
    assert!(info.is_valid());
    info.add(LintFix::create_before(7, vec![leaf(10, "x")]));
    info.add(LintFix::create_after(7, vec![leaf(11, "y")]));
    info.add(LintFix::create_before(7, vec![leaf(12, "z")]));
    assert_eq!(info.total(), 3);
    assert_eq!(info.create_before(), 2);
    assert_eq!(info.create_after(), 1);
    assert_eq!(info.replace(), 0);
    assert_eq!(info.delete(), 0);
    assert!(info.is_valid());
    assert_eq!(
        info.directive(),
        EditDirective::Create {
            before: vec![leaf(10, "x"), leaf(12, "z")],
            after: vec![leaf(11, "y")],
        }
    );
    info.add(LintFix::delete(7));
    assert_eq!(info.delete(), 1);
    assert_eq!(info.total(), 4);
    assert!(!info.is_valid());
    assert_eq!(info.directive(), EditDirective::Conflict);
    assert_eq!(info.fixes().len(), 4);
    assert_eq!(info.fixes()[3].edit_type, EditType::Delete);
}

#[test]
fn a_fix_is_held_once() {
    let mut info = AnchorEditInfo::new();
    info.add(LintFix::replace(7, vec![leaf(10, "x")]));
    info.add(LintFix::replace(7, vec![leaf(10, "x")]));
    assert_eq!(info.total(), 1);
    assert_eq!(info.replace(), 1);
    assert_eq!(info.directive(), EditDirective::Replace(vec![leaf(10, "x")]));
    let info = info.with(LintFix::replace(7, vec![leaf(10, "other")]));
    assert_eq!(info.total(), 2);
    assert_eq!(info.replace(), 2);
    assert_eq!(info.directive(), EditDirective::Conflict);
}

#[test]
fn a_single_deletion_is_a_deletion() {
    let mut info = AnchorEditInfo::new();
    info.add(LintFix::delete(7));
    info.add(LintFix::delete(7));
    assert_eq!(info.total(), 1);
    assert_eq!(info.directive(), EditDirective::Delete);
    assert!(info.is_valid());
    info.add(LintFix::create_after(7, vec![leaf(10, "x")]));
    assert_eq!(info.directive(), EditDirective::Conflict);
}

#[test]
fn fixes_are_grouped_by_anchor_in_their_order() {
    let plan = compute_anchor_edit_info(vec![
        LintFix::create_before(4, vec![leaf(10, "x")]),
        LintFix::delete(6),
        LintFix::create_before(4, vec![leaf(11, "y")]),
        LintFix::delete(6),
        LintFix::new(EditType::Replace, 2, vec![leaf(12, "z")]),
    ]);
    assert_eq!(plan.len(), 3);
    assert_eq!(plan[&4].total(), 2);
    assert_eq!(
        plan[&4].directive(),
        EditDirective::Create { before: vec![leaf(10, "x"), leaf(11, "y")], after: Vec::new() }
    );
    assert_eq!(plan[&6].directive(), EditDirective::Delete);
    assert_eq!(plan[&2].directive(), EditDirective::Replace(vec![leaf(12, "z")]));
    assert!(compute_anchor_edit_info(Vec::new()).is_empty());
}

#[test]
fn an_empty_plan_changes_nothing() {
    let tree = sample();
    let (after, applied, conflicted, valid) = rewrite(&tree, Vec::new());
    assert_eq!(after, tree);
    assert_eq!((applied, conflicted, valid), (0, 0, true));
}

#[test]
fn a_deletion_takes_the_anchor_out() {
    let tree = sample();
    let (after, applied, conflicted, valid) = rewrite(&tree, vec![LintFix::delete(4)]);
    assert_eq!(after, node(1, vec![leaf(2, "a"), node(3, vec![leaf(5, "c")]), leaf(6, "d")]));
    assert_eq!((applied, conflicted, valid), (1, 0, true));
    let (after, applied, _, valid) = rewrite(&tree, vec![LintFix::delete(3)]);
    assert_eq!(raws(&after), "ad");
    assert_eq!((applied, valid), (1, true));
}

#[test]
fn a_replacement_puts_the_new_segments_in_place() {
    let tree = sample();
    let (after, applied, conflicted, valid) =
        rewrite(&tree, vec![LintFix::replace(3, vec![leaf(20, "x"), leaf(21, "y")])]);
    assert_eq!(
        after,
        node(1, vec![leaf(2, "a"), leaf(20, "x"), leaf(21, "y"), leaf(6, "d")])
    );
    assert_eq!((applied, conflicted, valid), (1, 0, true));
}

#[test]
fn creations_go_around_the_anchor() {
    let tree = sample();
    let (after, applied, conflicted, valid) = rewrite(
        &tree,
        vec![
            LintFix::create_after(5, vec![leaf(20, "x")]),
            LintFix::create_before(5, vec![leaf(21, "y")]),
            LintFix::create_after(5, vec![leaf(22, "z")]),
            LintFix::create_before(2, vec![leaf(23, "w")]),
        ],
    );
    assert_eq!(raws(&after), "wabycxzd");
    assert_eq!(after.uuid, 1);
    assert_eq!(after.segments[2].uuid, 3);
    assert_eq!((applied, conflicted, valid), (2, 0, true));
}

#[test]
fn edits_below_a_kept_node_are_applied() {
    let tree = sample();
    let (after, applied, _, valid) = rewrite(
        &tree,
        vec![LintFix::create_before(3, vec![leaf(20, "x")]), LintFix::delete(5)],
    );
    assert_eq!(raws(&after), "axbd");
    assert_eq!((applied, valid), (2, true));
}

#[test]
fn edits_below_a_replaced_node_are_not_reached() {
    let tree = sample();
    let (after, applied, conflicted, valid) = rewrite(
        &tree,
        vec![LintFix::replace(3, vec![leaf(20, "x")]), LintFix::delete(5), LintFix::delete(4)],
    );
    assert_eq!(raws(&after), "axd");
    assert_eq!((applied, conflicted, valid), (1, 0, true));
}

#[test]
fn conflicting_fixes_are_passed_over() {
    let tree = sample();
    let (after, applied, conflicted, valid) = rewrite(
        &tree,
        vec![LintFix::replace(4, vec![leaf(20, "x")]), LintFix::delete(4), LintFix::delete(6)],
    );
    assert_eq!(after, node(1, vec![leaf(2, "a"), node(3, vec![leaf(4, "b"), leaf(5, "c")])]));
    assert_eq!((applied, conflicted, valid), (1, 1, true));
    let (after, applied, conflicted, _) = rewrite(
        &tree,
        vec![
            LintFix::replace(4, vec![leaf(20, "x")]),
            LintFix::replace(4, vec![leaf(20, "y")]),
        ],
    );
    assert_eq!(after, tree);
    assert_eq!((applied, conflicted), (0, 1));
    let (after, applied, conflicted, _) = rewrite(
        &tree,
        vec![
            LintFix::create_before(3, vec![leaf(20, "x")]),
            LintFix::delete(3),
            LintFix::delete(5),
        ],
    );
    assert_eq!(raws(&after), "abd");
    assert_eq!((applied, conflicted), (1, 1));
}

#[test]
fn the_root_and_unknown_anchors_are_left_alone() {
    let tree = sample();
    let (after, applied, conflicted, valid) =
        rewrite(&tree, vec![LintFix::delete(1), LintFix::delete(99)]);
    assert_eq!(after, tree);
    assert_eq!((applied, conflicted, valid), (0, 0, true));
}

#[test]
fn new_segments_are_not_rewritten() {
    let tree = sample();
    let (after, applied, _, valid) = rewrite(
        &tree,
        vec![LintFix::replace(2, vec![node(30, vec![leaf(31, "x")])]), LintFix::delete(31)],
    );
    assert_eq!(raws(&after), "xbcd");
    assert_eq!((applied, valid), (1, true));
}

#[test]
fn an_anchor_that_occurs_twice_makes_the_tree_incoherent() {
    let tree = sample();
    let (after, applied, _, valid) =
        rewrite(&tree, vec![LintFix::create_after(2, vec![leaf(6, "again")])]);
    assert_eq!(raws(&after), "aagainbcd");
    assert_eq!(applied, 1);
    assert!(!valid);
    assert!(!after.is_coherent());
    assert!(tree.is_coherent());
    assert!(!node(1, vec![leaf(1, "x")]).is_coherent());
    assert!(!node(1, vec![leaf(2, "x"), node(3, vec![leaf(2, "y")])]).is_coherent());
    assert!(leaf(1, "x").is_coherent());
}
