//! The syntax tree: segments with stable anchors.
//!
//! A tree is never changed in place. A rewrite builds new nodes where
//! something changed and shares every other subtree with the tree that it
//! started from.

use std::rc::Rc;
use uuid::Uuid;
use vstd::prelude::*;

verus! {

/// Calls `Uuid::new_v4` and `Uuid::as_u128` on what it gives: the 128 bits of
/// a random identifier. Nothing is claimed of them.
#[verifier::external_body]
fn new_anchor() -> u128 {
    Uuid::new_v4().as_u128()
}

/// A segment that any number of trees may share.
pub type ErasedSegment = Rc<Segment>;

/// Calls `Rc::clone` of std: one more handle to the same segment.
#[verifier::external_body]
pub(crate) fn share(segment: &ErasedSegment) -> (r: ErasedSegment)
    ensures
        r == *segment,
{
    Rc::clone(segment)
}

/// A node of the syntax tree.
///
/// `uuid` is the anchor of the node: fixes name the node they edit by it. The
/// engine never changes the anchor of a node that it keeps.
#[derive(Debug, PartialEq, Eq)]
pub struct Segment {
    pub uuid: u128,
    pub kind: String,
    pub raw: String,
    pub segments: Vec<ErasedSegment>,
}

/// The mathematical value of a [`Segment`].
pub struct SegmentView {
    pub uuid: u128,
    pub kind: Seq<char>,
    pub raw: Seq<char>,
    pub segments: Seq<SegmentView>,
}

impl View for Segment {
    type V = SegmentView;

    open spec fn view(&self) -> SegmentView
        decreases self, 1nat, 0nat,
    {
        SegmentView {
            uuid: self.uuid,
            kind: self.kind@,
            raw: self.raw@,
            segments: child_views(*self, self.segments@.len()),
        }
    }
}

/// The values of the first `k` children of `s`, in order.
pub open spec fn child_views(s: Segment, k: nat) -> Seq<SegmentView>
    decreases s, 0nat, k,
{
    if k == 0 || k > s.segments@.len() {
        Seq::empty()
    } else {
        child_views(s, (k - 1) as nat).push((*s.segments@[k - 1])@)
    }
}

/// The values of a sequence of segments, in order.
pub open spec fn views(s: Seq<ErasedSegment>) -> Seq<SegmentView> {
    Seq::new(s.len(), |i: int| s[i]@)
}

/// The first `k` children of a segment's value are the values of its first
/// `k` children.
pub proof fn lemma_child_views(s: &Segment, k: nat)
    requires
        k <= s.segments@.len(),
    ensures
        child_views(*s, k) == views(s.segments@.take(k as int)),
    decreases k,
{
    let goal = views(s.segments@.take(k as int));
    if k > 0 {
        lemma_child_views(s, (k - 1) as nat);
        let prev = views(s.segments@.take(k - 1));
        assert(child_views(*s, k) == prev.push(s.segments@[k - 1]@));
        assert(prev.len() == k - 1);
        assert(goal.len() == k);
        assert forall|i: int| 0 <= i < k implies prev.push(s.segments@[k - 1]@)[i] == goal[i] by {
            if i < k - 1 {
                assert(prev[i] == s.segments@.take(k - 1)[i]@);
            }
        }
        assert(prev.push(s.segments@[k - 1]@) =~= goal);
    } else {
        assert(child_views(*s, k) =~= goal);
    }
}

/// The children of a segment's value are the values of its children.
pub broadcast proof fn lemma_view_children(s: &Segment)
    ensures
        #[trigger] s@.segments == views(s.segments@),
{
    lemma_child_views(s, s.segments@.len());
    assert(s.segments@.take(s.segments@.len() as int) =~= s.segments@);
}

/// The anchors of a tree in document order: a node first, then its children
/// from left to right.
pub open spec fn anchors(t: SegmentView) -> Seq<u128>
    decreases t, 1nat, 0nat,
{
    seq![t.uuid] + anchors_of_prefix(t, t.segments.len())
}

/// The anchors of the first `k` children of `t`, subtrees included.
pub open spec fn anchors_of_prefix(t: SegmentView, k: nat) -> Seq<u128>
    decreases t, 0nat, k,
{
    if k == 0 || k > t.segments.len() {
        Seq::empty()
    } else {
        anchors_of_prefix(t, (k - 1) as nat) + anchors(t.segments[k - 1])
    }
}

impl Segment {
    /// A segment with a new anchor, drawn at random.
    pub fn new(kind: &str, raw: &str, segments: Vec<ErasedSegment>) -> (s: ErasedSegment)
        ensures
            s.kind@ == kind@,
            s.raw@ == raw@,
            s.segments == segments,
    {
        Segment::with_uuid(new_anchor(), kind, raw, segments)
    }

    /// A segment with the given anchor.
    pub fn with_uuid(uuid: u128, kind: &str, raw: &str, segments: Vec<ErasedSegment>) -> (s:
        ErasedSegment)
        ensures
            s.uuid == uuid,
            s.kind@ == kind@,
            s.raw@ == raw@,
            s.segments == segments,
    {
        Rc::new(Segment { uuid, kind: kind.to_owned(), raw: raw.to_owned(), segments })
    }

    /// The anchor of this segment.
    pub fn get_uuid(&self) -> (id: u128)
        ensures
            id == self.uuid,
    {
        self.uuid
    }

    /// Whether two subtrees have the same value: the same anchors, kinds and
    /// texts in the same shape.
    pub fn same(&self, other: &Segment) -> (b: bool)
        ensures
            b == (self@ == other@),
        decreases self,
    {
        let same_kind = self.kind == other.kind;
        let same_raw = self.raw == other.raw;
        if self.uuid != other.uuid || !same_kind || !same_raw || self.segments.len()
            != other.segments.len() {
            proof {
                lemma_view_children(self);
                lemma_view_children(other);
                assert(self@.uuid == self.uuid);
                assert(self@.kind == self.kind@);
                assert(self@.raw == self.raw@);
                assert(self@.segments.len() == self.segments@.len());
                assert(other@.segments.len() == other.segments@.len());
            }
            return false;
        }
        let mut i: usize = 0;
        while i < self.segments.len()
            invariant
                i <= self.segments.len(),
                self.segments.len() == other.segments.len(),
                forall|j: int|
                    0 <= j < i ==> (#[trigger] self.segments@[j])@ == other.segments@[j]@,
            decreases self.segments.len() - i,
        {
            if !self.segments[i].same(&other.segments[i]) {
                proof {
                    lemma_view_children(self);
                    lemma_view_children(other);
                    assert(self@.segments[i as int] == self.segments@[i as int]@);
                    assert(other@.segments[i as int] == other.segments@[i as int]@);
                }
                return false;
            }
            i += 1;
        }
        proof {
            lemma_view_children(self);
            lemma_view_children(other);
            assert(self@.segments =~= other@.segments);
        }
        true
    }
}

/// One more handle to each of the given segments, in order.
pub fn share_all(v: &Vec<ErasedSegment>) -> (r: Vec<ErasedSegment>)
    ensures
        r@ == v@,
{
    let mut r: Vec<ErasedSegment> = Vec::new();
    let mut i: usize = 0;
    while i < v.len()
        invariant
            i <= v.len(),
            r@ == v@.take(i as int),
        decreases v.len() - i,
    {
        r.push(share(&v[i]));
        proof {
            assert(r@ =~= v@.take(i + 1));
        }
        i += 1;
    }
    proof {
        assert(v@.take(v.len() as int) =~= v@);
    }
    r
}

/// Whether two sequences of segments have the same values.
pub fn same_all(a: &Vec<ErasedSegment>, b: &Vec<ErasedSegment>) -> (r: bool)
    ensures
        r == (views(a@) == views(b@)),
{
    if a.len() != b.len() {
        proof {
            assert(views(a@).len() != views(b@).len());
        }
        return false;
    }
    let mut i: usize = 0;
    while i < a.len()
        invariant
            i <= a.len(),
            a.len() == b.len(),
            forall|j: int| 0 <= j < i ==> (#[trigger] a@[j])@ == b@[j]@,
        decreases a.len() - i,
    {
        if !a[i].same(&b[i]) {
            proof {
                assert(views(a@)[i as int] == a@[i as int]@);
                assert(views(b@)[i as int] == b@[i as int]@);
            }
            return false;
        }
        i += 1;
    }
    proof {
        assert(views(a@) =~= views(b@));
    }
    true
}

} // verus!
