//! Rewriting a tree by a plan of edits.

use std::collections::HashMap;
use std::collections::HashSet;
use std::rc::Rc;
use vstd::prelude::*;
use crate::config::Dialect;
use crate::fix::{resolve, AnchorEditInfo, DirectiveView, EditDirective};
use crate::plan::{plan_view, Plan};
use crate::segment::{
    anchors, anchors_of_prefix, lemma_view_children, share, views, ErasedSegment, Segment,
    SegmentView,
};

verus! {

/// What rewriting a part of a tree gives: the segments that stand in its
/// place, the anchors at which an edit was applied and the anchors that were
/// passed over as conflicts, both in document order.
pub struct Rewritten {
    pub segments: Seq<SegmentView>,
    pub applied: Seq<u128>,
    pub conflicted: Seq<u128>,
}

impl Rewritten {
    /// Nothing.
    pub open spec fn empty() -> Rewritten {
        Rewritten { segments: Seq::empty(), applied: Seq::empty(), conflicted: Seq::empty() }
    }

    /// This result followed by `next`.
    pub open spec fn followed_by(self, next: Rewritten) -> Rewritten {
        Rewritten {
            segments: self.segments + next.segments,
            applied: self.applied + next.applied,
            conflicted: self.conflicted + next.conflicted,
        }
    }
}

/// The node `t` with its children rewritten. The node keeps its anchor, and no
/// edit is looked up for the node itself.
pub open spec fn rebuild(t: SegmentView, plan: Plan) -> Rewritten
    decreases t, 1nat, 0nat,
{
    let inner = rewrite_prefix(t, plan, t.segments.len());
    Rewritten {
        segments: seq![
            SegmentView { uuid: t.uuid, kind: t.kind, raw: t.raw, segments: inner.segments },
        ],
        applied: inner.applied,
        conflicted: inner.conflicted,
    }
}

/// The first `k` children of `t`, rewritten from left to right.
pub open spec fn rewrite_prefix(t: SegmentView, plan: Plan, k: nat) -> Rewritten
    decreases t, 0nat, k,
{
    if k == 0 || k > t.segments.len() {
        Rewritten::empty()
    } else {
        rewrite_prefix(t, plan, (k - 1) as nat).followed_by(rewrite_child(t.segments[k - 1], plan))
    }
}

/// What stands in the place of the child `c`.
///
/// Without an entry in the plan, and where the entry is a conflict, the child
/// stays and its own children are rewritten. A deletion leaves nothing, a
/// replacement leaves the new segments as they are given, and creations put
/// their segments around the child, whose children are rewritten.
pub open spec fn rewrite_child(c: SegmentView, plan: Plan) -> Rewritten
    decreases c, 2nat, 0nat,
{
    if !plan.contains_key(c.uuid) {
        rebuild(c, plan)
    } else {
        match resolve(plan[c.uuid]) {
            DirectiveView::Conflict => {
                let inner = rebuild(c, plan);
                Rewritten {
                    segments: inner.segments,
                    applied: inner.applied,
                    conflicted: seq![c.uuid] + inner.conflicted,
                }
            },
            DirectiveView::Delete => Rewritten {
                segments: Seq::empty(),
                applied: seq![c.uuid],
                conflicted: Seq::empty(),
            },
            DirectiveView::Replace(edit) => Rewritten {
                segments: edit,
                applied: seq![c.uuid],
                conflicted: Seq::empty(),
            },
            DirectiveView::Create { before, after } => {
                let inner = rebuild(c, plan);
                Rewritten {
                    segments: before + inner.segments + after,
                    applied: seq![c.uuid] + inner.applied,
                    conflicted: inner.conflicted,
                }
            },
        }
    }
}

/// The tree `t` rewritten by `plan`.
pub open spec fn rewritten_tree(t: SegmentView, plan: Plan) -> SegmentView {
    rebuild(t, plan).segments[0]
}

/// Whether no anchor occurs twice in the tree `t`.
pub open spec fn coherent(t: SegmentView) -> bool {
    anchors(t).no_duplicates()
}

/// The values of two runs of segments, one after the other.
pub proof fn lemma_views_add(a: Seq<ErasedSegment>, b: Seq<ErasedSegment>)
    ensures
        views(a + b) == views(a) + views(b),
{
    assert(views(a + b) =~= views(a) + views(b));
}

/// The values of a run of segments with one more at its end.
pub proof fn lemma_views_push(a: Seq<ErasedSegment>, s: ErasedSegment)
    ensures
        views(a.push(s)) == views(a).push(s@),
{
    assert(views(a.push(s)) =~= views(a).push(s@));
}

/// The node with its children rewritten by `fixes`, and whether anything was
/// changed below it. Where nothing was, the node that comes back is the one
/// that was given, shared and not built anew. The anchors at which an edit is
/// applied, and those passed over as conflicts, are added to `applied` and
/// `conflicted`.
fn rebuilt(
    node: &ErasedSegment,
    fixes: &HashMap<u128, AnchorEditInfo>,
    applied: &mut Vec<u128>,
    conflicted: &mut Vec<u128>,
) -> (r: (ErasedSegment, bool))
    ensures
        seq![r.0@] == rebuild(node@, plan_view(fixes@)).segments,
        r.1 == (rebuild(node@, plan_view(fixes@)).applied.len() > 0),
        !r.1 ==> r.0 == *node,
        final(applied)@ == old(applied)@ + rebuild(node@, plan_view(fixes@)).applied,
        final(conflicted)@ == old(conflicted)@ + rebuild(node@, plan_view(fixes@)).conflicted,
    decreases node,
{
    let ghost plan = plan_view(fixes@);
    let ghost applied0 = applied@;
    let ghost conflicted0 = conflicted@;
    let mut out: Vec<ErasedSegment> = Vec::new();
    let mut changed = false;
    let mut i: usize = 0;
    proof {
        lemma_view_children(&**node);
        assert(views(out@) =~= rewrite_prefix(node@, plan, 0).segments);
        assert(applied@ =~= applied0 + rewrite_prefix(node@, plan, 0).applied);
        assert(conflicted@ =~= conflicted0 + rewrite_prefix(node@, plan, 0).conflicted);
        assert(out@ =~= node.segments@.take(0));
    }
    while i < node.segments.len()
        invariant
            i <= node.segments.len(),
            plan == plan_view(fixes@),
            node@.segments == views(node.segments@),
            views(out@) == rewrite_prefix(node@, plan, i as nat).segments,
            !changed ==> out@ == node.segments@.take(i as int),
            changed == (rewrite_prefix(node@, plan, i as nat).applied.len() > 0),
            applied@ == applied0 + rewrite_prefix(node@, plan, i as nat).applied,
            conflicted@ == conflicted0 + rewrite_prefix(node@, plan, i as nat).conflicted,
        decreases node.segments.len() - i,
    {
        let child = &node.segments[i];
        let ghost c = child@;
        let ghost done = rewrite_prefix(node@, plan, i as nat);
        let ghost step = rewrite_child(c, plan);
        let ghost out0 = out@;
        let ghost applied1 = applied@;
        let ghost conflicted1 = conflicted@;
        proof {
            assert(node@.segments[i as int] == c);
            assert(rewrite_prefix(node@, plan, (i + 1) as nat) == done.followed_by(step));
        }
        match fixes.get(&child.uuid) {
            None => {
                let (kept, below) = rebuilt(child, fixes, applied, conflicted);
                out.push(kept);
                if below {
                    changed = true;
                }
                proof {
                    lemma_views_push(out0, kept);
                    assert(views(out0).push(kept@) =~= views(out0) + seq![kept@]);
                    if !changed {
                        assert(out@ =~= node.segments@.take(i + 1));
                    }
                }
            },
            Some(info) => {
                proof {
                    assert(plan[c.uuid] == info@);
                }
                match info.directive() {
                    EditDirective::Conflict => {
                        conflicted.push(child.uuid);
                        let (kept, below) = rebuilt(child, fixes, applied, conflicted);
                        out.push(kept);
                        if below {
                            changed = true;
                        }
                        proof {
                            lemma_views_push(out0, kept);
                            assert(views(out0).push(kept@) =~= views(out0) + seq![kept@]);
                            assert(conflicted@ =~= conflicted1 + step.conflicted);
                            if !changed {
                                assert(out@ =~= node.segments@.take(i + 1));
                            }
                        }
                    },
                    EditDirective::Delete => {
                        applied.push(child.uuid);
                        changed = true;
                        proof {
                            assert(views(out@) =~= views(out0) + step.segments);
                            assert(applied@ =~= applied1 + step.applied);
                            assert(conflicted@ =~= conflicted1 + step.conflicted);
                        }
                    },
                    EditDirective::Replace(edit) => {
                        let mut edit = edit;
                        let ghost e = edit@;
                        applied.push(child.uuid);
                        out.append(&mut edit);
                        changed = true;
                        proof {
                            lemma_views_add(out0, e);
                            assert(applied@ =~= applied1 + step.applied);
                            assert(conflicted@ =~= conflicted1 + step.conflicted);
                        }
                    },
                    EditDirective::Create { before, after } => {
                        let mut before = before;
                        let mut after = after;
                        let ghost b = before@;
                        let ghost a = after@;
                        applied.push(child.uuid);
                        out.append(&mut before);
                        let (kept, _) = rebuilt(child, fixes, applied, conflicted);
                        out.push(kept);
                        out.append(&mut after);
                        changed = true;
                        proof {
                            lemma_views_add(out0, b);
                            lemma_views_push(out0 + b, kept);
                            lemma_views_add((out0 + b).push(kept), a);
                            assert(views(out@) =~= views(out0) + step.segments);
                            assert(applied@ =~= applied1 + step.applied);
                        }
                    },
                }
            },
        }
        proof {
            assert(views(out@) =~= done.followed_by(step).segments);
            assert(applied@ =~= applied0 + done.followed_by(step).applied);
            assert(conflicted@ =~= conflicted0 + done.followed_by(step).conflicted);
        }
        i += 1;
    }
    if !changed {
        proof {
            assert(node.segments@.take(node.segments@.len() as int) =~= node.segments@);
            assert(seq![node@] =~= rebuild(node@, plan).segments);
        }
        return (share(node), false);
    }
    let built = Rc::new(
        Segment { uuid: node.uuid, kind: node.kind.clone(), raw: node.raw.clone(), segments: out },
    );
    proof {
        lemma_view_children(&*built);
        assert(seq![built@] =~= rebuild(node@, plan).segments);
    }
    (built, true)
}

impl Segment {
    /// Adds the anchors of this tree, in document order, to `out`.
    fn collect_anchors(&self, out: &mut Vec<u128>)
        ensures
            final(out)@ == old(out)@ + anchors(self@),
        decreases self,
    {
        let ghost start = out@;
        out.push(self.uuid);
        let mut i: usize = 0;
        proof {
            lemma_view_children(self);
            assert(out@ =~= start + seq![self.uuid] + anchors_of_prefix(self@, 0));
        }
        while i < self.segments.len()
            invariant
                i <= self.segments.len(),
                self@.segments == views(self.segments@),
                out@ == start + seq![self.uuid] + anchors_of_prefix(self@, i as nat),
            decreases self.segments.len() - i,
        {
            let ghost before = out@;
            self.segments[i].collect_anchors(out);
            proof {
                assert(self@.segments[i as int] == self.segments@[i as int]@);
                assert(out@ =~= start + seq![self.uuid] + anchors_of_prefix(
                    self@,
                    (i + 1) as nat,
                ));
            }
            i += 1;
        }
        proof {
            assert(out@ =~= start + anchors(self@));
        }
    }

    /// Whether no anchor occurs twice in this tree.
    pub fn is_coherent(&self) -> (b: bool)
        ensures
            b == coherent(self@),
    {
        let mut all: Vec<u128> = Vec::new();
        self.collect_anchors(&mut all);
        proof {
            assert(all@ =~= anchors(self@));
        }
        let mut seen: HashSet<u128> = HashSet::new();
        let mut i: usize = 0;
        while i < all.len()
            invariant
                i <= all.len(),
                all@ == anchors(self@),
                forall|j: int| 0 <= j < i ==> seen@.contains(#[trigger] all@[j]),
                forall|x: u128| seen@.contains(x) ==> exists|j: int| 0 <= j < i && all@[j] == x,
                forall|j: int, k: int| 0 <= j < k < i ==> all@[j] != all@[k],
            decreases all.len() - i,
        {
            let fresh = seen.insert(all[i]);
            if !fresh {
                proof {
                    let j = choose|j: int| 0 <= j < i && all@[j] == all@[i as int];
                    assert(all@[j] == all@[i as int] && j != i);
                }
                return false;
            }
            i += 1;
        }
        true
    }
}

/// Rewrites a tree by a plan of edits.
///
/// Returns the new tree, the number of anchors at which an edit was applied,
/// the number of anchors passed over because their fixes conflict, and
/// whether the new tree is coherent: whether no anchor occurs twice in it. A
/// caller is to keep the old tree where it is not.
///
/// An edit is looked up for every node below the root that the traversal
/// reaches, and the traversal does not enter what a deletion or a replacement
/// takes away, nor the new segments. Nodes are built anew only on the way to
/// an edit: every other subtree of the new tree is shared with the old one.
pub fn apply_fixes(
    tree: &ErasedSegment,
    dialect: Dialect,
    fixes: &HashMap<u128, AnchorEditInfo>,
) -> (r: (ErasedSegment, usize, usize, bool))
    ensures
        r.0@ == rewritten_tree(tree@, plan_view(fixes@)),
        r.1 == rebuild(tree@, plan_view(fixes@)).applied.len(),
        r.2 == rebuild(tree@, plan_view(fixes@)).conflicted.len(),
        r.3 == coherent(r.0@),
        r.1 == 0 ==> r.0 == *tree,
{
    let mut applied: Vec<u128> = Vec::new();
    let mut conflicted: Vec<u128> = Vec::new();
    let (after, changed) = rebuilt(tree, fixes, &mut applied, &mut conflicted);
    let valid = after.is_coherent();
    proof {
        let r = rebuild(tree@, plan_view(fixes@));
        assert(seq![after@][0] == r.segments[0]);
        assert(applied@ =~= r.applied);
        assert(conflicted@ =~= r.conflicted);
    }
    (after, applied.len(), conflicted.len(), valid)
}

} // verus!
