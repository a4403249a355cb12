//! Grouping the fixes of one batch by anchor.

use std::collections::HashMap;
use vstd::map::*;
use vstd::prelude::*;
use crate::fix::{
    add_fix, count_kind, fix_views, is_creation, resolve, AnchorEditInfo, EditType, FixView,
    LintFix,
};

verus! {

/// For each anchor that a batch of fixes targets, the fixes of that anchor.
pub type Plan = Map<u128, Seq<FixView>>;

/// The fixes of `fs` that target the anchor `a`, in the order of `fs`, each
/// value once.
pub open spec fn fixes_at(fs: Seq<FixView>, a: u128) -> Seq<FixView>
    decreases fs.len(),
{
    if fs.len() == 0 {
        Seq::empty()
    } else if fs.last().anchor == a {
        add_fix(fixes_at(fs.drop_last(), a), fs.last())
    } else {
        fixes_at(fs.drop_last(), a)
    }
}

/// Whether a fix of `fs` targets the anchor `a`.
pub open spec fn targets(fs: Seq<FixView>, a: u128) -> bool {
    exists|i: int| 0 <= i < fs.len() && (#[trigger] fs[i]).anchor == a
}

/// The plan of a batch of fixes.
pub open spec fn plan_of(fs: Seq<FixView>) -> Plan {
    Map::new(|a: u128| targets(fs, a), |a: u128| fixes_at(fs, a))
}

/// The plan that a map from anchors to their fixes stands for.
pub open spec fn plan_view(m: Map<u128, AnchorEditInfo>) -> Plan {
    Map::new(|a: u128| m.contains_key(a), |a: u128| m[a]@)
}

/// The fixes at an anchor hold every fix of the batch that targets it, and no
/// other.
pub proof fn lemma_fixes_at_contains(fs: Seq<FixView>, a: u128, f: FixView)
    ensures
        fixes_at(fs, a).contains(f) <==> fs.contains(f) && f.anchor == a,
    decreases fs.len(),
{
    if fs.len() == 0 {
        assert(!fixes_at(fs, a).contains(f));
    } else {
        let rest = fs.drop_last();
        lemma_fixes_at_contains(rest, a, f);
        let held = fixes_at(rest, a);
        if fs.contains(f) {
            let i = choose|i: int| 0 <= i < fs.len() && fs[i] == f;
            if i < fs.len() - 1 {
                assert(rest[i] == f);
            }
        }
        if rest.contains(f) {
            let i = choose|i: int| 0 <= i < rest.len() && rest[i] == f;
            assert(fs[i] == f);
        }
        assert(fs[fs.len() - 1] == fs.last());
        if fs.last().anchor == a {
            if !held.contains(fs.last()) {
                let grown = held.push(fs.last());
                assert(grown[held.len() as int] == fs.last());
                if held.contains(f) {
                    let i = choose|i: int| 0 <= i < held.len() && held[i] == f;
                    assert(grown[i] == f);
                }
                if grown.contains(f) {
                    let i = choose|i: int| 0 <= i < grown.len() && grown[i] == f;
                    if i < held.len() {
                        assert(held[i] == f);
                    }
                }
            }
        }
    }
}

/// The fixes at an anchor all target it, and no value occurs twice among
/// them.
pub proof fn lemma_fixes_at_distinct(fs: Seq<FixView>, a: u128)
    ensures
        fixes_at(fs, a).no_duplicates(),
        forall|i: int|
            0 <= i < fixes_at(fs, a).len() ==> (#[trigger] fixes_at(fs, a)[i]).anchor == a,
        fixes_at(fs, a).len() > 0 <==> targets(fs, a),
    decreases fs.len(),
{
    if fs.len() > 0 {
        let rest = fs.drop_last();
        lemma_fixes_at_distinct(rest, a);
        if targets(rest, a) {
            let i = choose|i: int| 0 <= i < rest.len() && (#[trigger] rest[i]).anchor == a;
            assert(fs[i].anchor == a);
        }
        if targets(fs, a) && fs.last().anchor != a {
            let i = choose|i: int| 0 <= i < fs.len() && (#[trigger] fs[i]).anchor == a;
            assert(rest[i].anchor == a);
        }
        if fs.last().anchor == a {
            assert(fs[fs.len() - 1].anchor == a);
        }
    }
}

/// A count is positive exactly when a fix of that kind is there.
pub proof fn lemma_count_positive(s: Seq<FixView>, kind: EditType)
    ensures
        count_kind(s, kind) > 0 <==> exists|i: int|
            0 <= i < s.len() && (#[trigger] s[i]).edit_type == kind,
    decreases s.len(),
{
    if s.len() > 0 {
        let rest = s.drop_last();
        lemma_count_positive(rest, kind);
        if count_kind(rest, kind) > 0 {
            let i = choose|i: int| 0 <= i < rest.len() && (#[trigger] rest[i]).edit_type == kind;
            assert(s[i].edit_type == kind);
        }
        if s.last().edit_type == kind {
            assert(s[s.len() - 1].edit_type == kind);
        }
        if exists|i: int| 0 <= i < s.len() && (#[trigger] s[i]).edit_type == kind {
            let i = choose|i: int| 0 <= i < s.len() && (#[trigger] s[i]).edit_type == kind;
            if i < s.len() - 1 {
                assert(rest[i].edit_type == kind);
            }
        }
    }
}

/// Two fixes of one batch that target the same anchor, differ, and are not
/// both creations, make that anchor a conflict: the plan holds no edit for
/// it.
pub proof fn lemma_incompatible_fixes_conflict(fs: Seq<FixView>, i: int, j: int)
    requires
        0 <= i < fs.len(),
        0 <= j < fs.len(),
        fs[i].anchor == fs[j].anchor,
        fs[i] != fs[j],
        !(is_creation(fs[i].edit_type) && is_creation(fs[j].edit_type)),
    ensures
        plan_of(fs).contains_key(fs[i].anchor),
        resolve(plan_of(fs)[fs[i].anchor]) is Conflict,
{
    let a = fs[i].anchor;
    let held = fixes_at(fs, a);
    lemma_fixes_at_contains(fs, a, fs[i]);
    lemma_fixes_at_contains(fs, a, fs[j]);
    lemma_fixes_at_distinct(fs, a);
    assert(fs.contains(fs[i]));
    assert(fs.contains(fs[j]));
    let p = choose|p: int| 0 <= p < held.len() && held[p] == fs[i];
    let q = choose|q: int| 0 <= q < held.len() && held[q] == fs[j];
    assert(p != q);
    assert(held.len() >= 2);
    let odd = if is_creation(fs[i].edit_type) {
        q
    } else {
        p
    };
    lemma_count_positive(held, EditType::Replace);
    lemma_count_positive(held, EditType::Delete);
    assert(held[odd].edit_type == EditType::Replace || held[odd].edit_type == EditType::Delete);
}

/// Groups the fixes of one batch by anchor.
///
/// The result has an entry for each anchor that a fix targets, and the entry
/// holds the fixes of that anchor in the order in which they came, each value
/// once.
pub fn compute_anchor_edit_info(fixes: Vec<LintFix>) -> (anchor_info: HashMap<u128, AnchorEditInfo>)
    ensures
        plan_view(anchor_info@) == plan_of(fix_views(fixes@)),
{
    let ghost all = fix_views(fixes@);
    let mut anchor_info: HashMap<u128, AnchorEditInfo> = HashMap::new();
    proof {
        assert(plan_view(anchor_info@) =~= plan_of(all.take(0)));
    }
    for fix in it: fixes
        invariant
            all == fix_views(fixes@),
            it.seq() == fixes@,
            plan_view(anchor_info@) == plan_of(all.take(it.index() as int)),
    {
        let ghost done = all.take(it.index() as int);
        let ghost next = all.take(it.index() + 1);
        let ghost before = anchor_info@;
        let ghost f = fix@;
        let anchor = fix.anchor;
        proof {
            assert(next.drop_last() =~= done);
            assert(next.last() == f);
            lemma_fixes_at_distinct(done, anchor);
            assert(plan_view(before).contains_key(anchor) == targets(done, anchor));
        }
        let info = match anchor_info.remove(&anchor) {
            Some(held) => {
                proof {
                    assert(held@ == plan_view(before)[anchor]);
                }
                held.with(fix)
            },
            None => AnchorEditInfo::new().with(fix),
        };
        anchor_info.insert(anchor, info);
        proof {
            assert(info@ == fixes_at(next, anchor));
            assert forall|a: u128| targets(next, a) == (targets(done, a) || a == anchor) by {
                if targets(done, a) {
                    let i = choose|i: int| 0 <= i < done.len() && (#[trigger] done[i]).anchor == a;
                    assert(next[i].anchor == a);
                }
                if a == anchor {
                    assert(next[next.len() - 1].anchor == a);
                }
                if targets(next, a) && a != anchor {
                    let i = choose|i: int| 0 <= i < next.len() && (#[trigger] next[i]).anchor == a;
                    assert(done[i].anchor == a);
                }
            }
            assert(anchor_info@ == before.remove(anchor).insert(anchor, info));
            assert_maps_equal!(plan_view(anchor_info@), plan_of(next), a => {
                assert(plan_view(before).contains_key(a) == plan_of(done).contains_key(a));
                if a != anchor && before.contains_key(a) {
                    assert(anchor_info@[a] == before[a]);
                    assert(plan_view(before)[a] == plan_of(done)[a]);
                }
            });
            assert(plan_view(anchor_info@) =~= plan_of(next));
        }
    }
    proof {
        assert(all.take(all.len() as int) =~= all);
    }
    anchor_info
}

} // verus!
