//! Fixes, and the edits that the fixes of one anchor amount to.

use vstd::prelude::*;
use crate::segment::{same_all, share_all, views, ErasedSegment, SegmentView};

verus! {

/// What a fix does at its anchor.
#[derive(Clone, Copy, Debug, PartialEq, Eq, Structural)]
pub enum EditType {
    CreateBefore,
    CreateAfter,
    Replace,
    Delete,
}

/// One edit that a rule proposes: what to do, at which segment, and with which
/// new segments.
#[derive(Debug, PartialEq, Eq)]
pub struct LintFix {
    pub edit_type: EditType,
    pub anchor: u128,
    pub edit: Vec<ErasedSegment>,
}

/// The mathematical value of a [`LintFix`].
pub struct FixView {
    pub edit_type: EditType,
    pub anchor: u128,
    pub edit: Seq<SegmentView>,
}

impl View for LintFix {
    type V = FixView;

    open spec fn view(&self) -> FixView {
        FixView { edit_type: self.edit_type, anchor: self.anchor, edit: views(self.edit@) }
    }
}

/// The values of a sequence of fixes, in order.
pub open spec fn fix_views(s: Seq<LintFix>) -> Seq<FixView> {
    Seq::new(s.len(), |i: int| s[i]@)
}

impl LintFix {
    pub fn new(edit_type: EditType, anchor: u128, edit: Vec<ErasedSegment>) -> (f: LintFix)
        ensures
            f == (LintFix { edit_type, anchor, edit }),
    {
        LintFix { edit_type, anchor, edit }
    }

    /// Put `edit` in front of the anchor.
    pub fn create_before(anchor: u128, edit: Vec<ErasedSegment>) -> (f: LintFix)
        ensures
            f == (LintFix { edit_type: EditType::CreateBefore, anchor, edit }),
    {
        LintFix { edit_type: EditType::CreateBefore, anchor, edit }
    }

    /// Put `edit` behind the anchor.
    pub fn create_after(anchor: u128, edit: Vec<ErasedSegment>) -> (f: LintFix)
        ensures
            f == (LintFix { edit_type: EditType::CreateAfter, anchor, edit }),
    {
        LintFix { edit_type: EditType::CreateAfter, anchor, edit }
    }

    /// Put `edit` in the place of the anchor.
    pub fn replace(anchor: u128, edit: Vec<ErasedSegment>) -> (f: LintFix)
        ensures
            f == (LintFix { edit_type: EditType::Replace, anchor, edit }),
    {
        LintFix { edit_type: EditType::Replace, anchor, edit }
    }

    /// Take the anchor out of the tree.
    pub fn delete(anchor: u128) -> (f: LintFix)
        ensures
            f.edit_type == EditType::Delete,
            f.anchor == anchor,
            f.edit@.len() == 0,
    {
        LintFix { edit_type: EditType::Delete, anchor, edit: Vec::new() }
    }

    /// Whether two fixes have the same value.
    pub fn same(&self, other: &LintFix) -> (b: bool)
        ensures
            b == (self@ == other@),
    {
        self.edit_type == other.edit_type && self.anchor == other.anchor && same_all(
            &self.edit,
            &other.edit,
        )
    }
}

/// Whether a kind of edit only adds segments.
pub open spec fn is_creation(kind: EditType) -> bool {
    kind == EditType::CreateBefore || kind == EditType::CreateAfter
}

/// How many fixes of `s` have the kind `kind`.
pub open spec fn count_kind(s: Seq<FixView>, kind: EditType) -> nat
    decreases s.len(),
{
    if s.len() == 0 {
        0
    } else {
        count_kind(s.drop_last(), kind) + if s.last().edit_type == kind {
            1nat
        } else {
            0nat
        }
    }
}

/// The new segments of the fixes of kind `kind` in `s`, in the order of `s`.
pub open spec fn payload(s: Seq<FixView>, kind: EditType) -> Seq<SegmentView>
    decreases s.len(),
{
    if s.len() == 0 {
        Seq::empty()
    } else if s.last().edit_type == kind {
        payload(s.drop_last(), kind) + s.last().edit
    } else {
        payload(s.drop_last(), kind)
    }
}

/// `s` with `f` added at its end, unless `s` holds a fix of that value
/// already.
pub open spec fn add_fix(s: Seq<FixView>, f: FixView) -> Seq<FixView> {
    if s.contains(f) {
        s
    } else {
        s.push(f)
    }
}

/// The single edit that the fixes of one anchor amount to.
pub enum DirectiveView {
    /// Only creations: `before` goes in front of the anchor and `after` behind
    /// it.
    Create { before: Seq<SegmentView>, after: Seq<SegmentView> },
    /// One replacement.
    Replace(Seq<SegmentView>),
    /// One deletion.
    Delete,
    /// The fixes contradict each other: none of them is applied.
    Conflict,
}

/// The edit that the fixes `s` of one anchor amount to.
///
/// Any number of creations go together, each side in the order in which its
/// fixes came. A replacement or a deletion stands only alone. Everything else
/// is a conflict.
pub open spec fn resolve(s: Seq<FixView>) -> DirectiveView {
    if count_kind(s, EditType::Replace) == 0 && count_kind(s, EditType::Delete) == 0 {
        DirectiveView::Create {
            before: payload(s, EditType::CreateBefore),
            after: payload(s, EditType::CreateAfter),
        }
    } else if s.len() == 1 && s[0].edit_type == EditType::Replace {
        DirectiveView::Replace(s[0].edit)
    } else if s.len() == 1 && s[0].edit_type == EditType::Delete {
        DirectiveView::Delete
    } else {
        DirectiveView::Conflict
    }
}

/// The executable form of [`DirectiveView`].
#[derive(Debug, PartialEq, Eq)]
pub enum EditDirective {
    Create { before: Vec<ErasedSegment>, after: Vec<ErasedSegment> },
    Replace(Vec<ErasedSegment>),
    Delete,
    Conflict,
}

impl View for EditDirective {
    type V = DirectiveView;

    open spec fn view(&self) -> DirectiveView {
        match self {
            EditDirective::Create { before, after } => DirectiveView::Create {
                before: views(before@),
                after: views(after@),
            },
            EditDirective::Replace(edit) => DirectiveView::Replace(views(edit@)),
            EditDirective::Delete => DirectiveView::Delete,
            EditDirective::Conflict => DirectiveView::Conflict,
        }
    }
}

/// The fixes that target one anchor, with how many there are of each kind.
///
/// A fix is held once: adding a fix whose value is already there changes
/// nothing.
#[derive(Debug, PartialEq, Eq)]
pub struct AnchorEditInfo {
    delete: usize,
    replace: usize,
    create_before: usize,
    create_after: usize,
    fixes: Vec<LintFix>,
}

impl View for AnchorEditInfo {
    type V = Seq<FixView>;

    closed spec fn view(&self) -> Seq<FixView> {
        fix_views(self.fixes@)
    }
}

/// Whether the four counts are those of the fixes `s`.
pub open spec fn counts_match(
    s: Seq<FixView>,
    delete: usize,
    replace: usize,
    create_before: usize,
    create_after: usize,
) -> bool {
    &&& delete == count_kind(s, EditType::Delete)
    &&& replace == count_kind(s, EditType::Replace)
    &&& create_before == count_kind(s, EditType::CreateBefore)
    &&& create_after == count_kind(s, EditType::CreateAfter)
}

/// Every fix has one of the four kinds.
pub proof fn lemma_counts_sum(s: Seq<FixView>)
    ensures
        count_kind(s, EditType::Delete) + count_kind(s, EditType::Replace) + count_kind(
            s,
            EditType::CreateBefore,
        ) + count_kind(s, EditType::CreateAfter) == s.len(),
    decreases s.len(),
{
    if s.len() > 0 {
        lemma_counts_sum(s.drop_last());
    }
}

/// Adds `fix` to `fixes` and to the count of its kind, unless a fix of its
/// value is there already.
fn add_to(
    fixes: &mut Vec<LintFix>,
    delete: &mut usize,
    replace: &mut usize,
    create_before: &mut usize,
    create_after: &mut usize,
    fix: LintFix,
)
    requires
        counts_match(
            fix_views(old(fixes)@),
            *old(delete),
            *old(replace),
            *old(create_before),
            *old(create_after),
        ),
    ensures
        fix_views(final(fixes)@) == add_fix(fix_views(old(fixes)@), fix@),
        counts_match(
            fix_views(final(fixes)@),
            *final(delete),
            *final(replace),
            *final(create_before),
            *final(create_after),
        ),
{
    let ghost before = fix_views(fixes@);
    let mut i: usize = 0;
    while i < fixes.len()
        invariant
            i <= fixes.len(),
            fix_views(fixes@) == before,
            counts_match(before, *delete, *replace, *create_before, *create_after),
            forall|j: int| 0 <= j < i ==> before[j] != fix@,
        decreases fixes.len() - i,
    {
        if fixes[i].same(&fix) {
            proof {
                assert(before[i as int] == fix@);
            }
            return ;
        }
        i += 1;
    }
    let kind = fix.edit_type;
    let ghost added = fix@;
    fixes.push(fix);
    proof {
        assert(before.len() + 1 == fixes.len());
        lemma_counts_sum(before);
        assert(!before.contains(added));
        assert(fix_views(fixes@) =~= before.push(added));
        assert(before.push(added).drop_last() =~= before);
    }
    match kind {
        EditType::Delete => {
            *delete = *delete + 1;
        },
        EditType::Replace => {
            *replace = *replace + 1;
        },
        EditType::CreateBefore => {
            *create_before = *create_before + 1;
        },
        EditType::CreateAfter => {
            *create_after = *create_after + 1;
        },
    }
}

/// Of a single fix, the counts tell the kind.
pub proof fn lemma_counts_of_one(s: Seq<FixView>, kind: EditType)
    requires
        s.len() == 1,
    ensures
        count_kind(s, kind) == if s[0].edit_type == kind {
            1nat
        } else {
            0nat
        },
{
    assert(s.drop_last().len() == 0);
    assert(count_kind(s.drop_last(), kind) == 0);
}

impl AnchorEditInfo {
    #[verifier::type_invariant]
    spec fn counted(&self) -> bool {
        counts_match(
            fix_views(self.fixes@),
            self.delete,
            self.replace,
            self.create_before,
            self.create_after,
        )
    }

    /// No fix yet.
    pub fn new() -> (info: AnchorEditInfo)
        ensures
            info@ == Seq::<FixView>::empty(),
    {
        let info = AnchorEditInfo {
            delete: 0,
            replace: 0,
            create_before: 0,
            create_after: 0,
            fixes: Vec::new(),
        };
        proof {
            assert(info@ =~= Seq::<FixView>::empty());
        }
        info
    }

    /// This info with `fix` added, unless a fix of the same value is held
    /// already.
    pub fn with(self, fix: LintFix) -> (info: AnchorEditInfo)
        ensures
            info@ == add_fix(self@, fix@),
    {
        proof {
            use_type_invariant(&self);
        }
        let AnchorEditInfo {
            mut delete,
            mut replace,
            mut create_before,
            mut create_after,
            mut fixes,
        } = self;
        add_to(&mut fixes, &mut delete, &mut replace, &mut create_before, &mut create_after, fix);
        AnchorEditInfo { delete, replace, create_before, create_after, fixes }
    }

    /// Adds a fix, unless a fix of the same value is held already.
    pub fn add(&mut self, fix: LintFix)
        ensures
            final(self)@ == add_fix(old(self)@, fix@),
    {
        let mut held = AnchorEditInfo::new();
        core::mem::swap(self, &mut held);
        *self = held.with(fix);
    }

    /// How many fixes are held.
    pub fn total(&self) -> (n: usize)
        ensures
            n == self@.len(),
    {
        self.fixes.len()
    }

    /// How many of the fixes delete the anchor.
    pub fn delete(&self) -> (n: usize)
        ensures
            n == count_kind(self@, EditType::Delete),
    {
        proof {
            use_type_invariant(self);
        }
        self.delete
    }

    /// How many of the fixes replace the anchor.
    pub fn replace(&self) -> (n: usize)
        ensures
            n == count_kind(self@, EditType::Replace),
    {
        proof {
            use_type_invariant(self);
        }
        self.replace
    }

    /// How many of the fixes put segments in front of the anchor.
    pub fn create_before(&self) -> (n: usize)
        ensures
            n == count_kind(self@, EditType::CreateBefore),
    {
        proof {
            use_type_invariant(self);
        }
        self.create_before
    }

    /// How many of the fixes put segments behind the anchor.
    pub fn create_after(&self) -> (n: usize)
        ensures
            n == count_kind(self@, EditType::CreateAfter),
    {
        proof {
            use_type_invariant(self);
        }
        self.create_after
    }

    /// The fixes, in the order in which they were added.
    pub fn fixes(&self) -> (fixes: &Vec<LintFix>)
        ensures
            fix_views(fixes@) == self@,
    {
        &self.fixes
    }

    /// The new segments of the fixes of kind `kind`, in the order of the
    /// fixes.
    fn collect(&self, kind: EditType) -> (out: Vec<ErasedSegment>)
        ensures
            views(out@) == payload(self@, kind),
    {
        let mut out: Vec<ErasedSegment> = Vec::new();
        let mut i: usize = 0;
        while i < self.fixes.len()
            invariant
                i <= self.fixes.len(),
                views(out@) == payload(self@.take(i as int), kind),
            decreases self.fixes.len() - i,
        {
            let ghost head = self@.take(i as int);
            let ghost next = self@.take(i + 1);
            proof {
                assert(next.drop_last() =~= head);
                assert(next.last() == self.fixes@[i as int]@);
            }
            if self.fixes[i].edit_type == kind {
                let mut more = share_all(&self.fixes[i].edit);
                let ghost old_out = out@;
                out.append(&mut more);
                proof {
                    assert(views(out@) =~= views(old_out) + views(self.fixes@[i as int].edit@));
                }
            }
            i += 1;
        }
        proof {
            assert(self@.take(self.fixes.len() as int) =~= self@);
        }
        out
    }

    /// The edit that the fixes amount to.
    pub fn directive(&self) -> (d: EditDirective)
        ensures
            d@ == resolve(self@),
    {
        proof {
            use_type_invariant(self);
        }
        if self.replace == 0 && self.delete == 0 {
            let before = self.collect(EditType::CreateBefore);
            let after = self.collect(EditType::CreateAfter);
            EditDirective::Create { before, after }
        } else if self.fixes.len() == 1 && self.fixes[0].edit_type == EditType::Replace {
            EditDirective::Replace(share_all(&self.fixes[0].edit))
        } else if self.fixes.len() == 1 && self.fixes[0].edit_type == EditType::Delete {
            EditDirective::Delete
        } else {
            EditDirective::Conflict
        }
    }

    /// Whether the fixes go together: whether they amount to an edit other
    /// than a conflict.
    pub fn is_valid(&self) -> (b: bool)
        ensures
            b == !(resolve(self@) is Conflict),
    {
        proof {
            use_type_invariant(self);
            if self@.len() == 1 {
                lemma_counts_of_one(self@, EditType::Replace);
                lemma_counts_of_one(self@, EditType::Delete);
            }
        }
        if self.replace == 0 && self.delete == 0 {
            true
        } else {
            self.fixes.len() == 1
        }
    }
}

} // verus!
