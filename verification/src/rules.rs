//! What the engine asks of a rule.

use vstd::prelude::*;
use crate::config::{Dialect, FluffConfig};
use crate::errors::{lint_error_views, LintErrorView, RuleFailure, RuleFailureView, SQLLintError};
use crate::fix::{fix_views, FixView, LintFix};
use crate::segment::{ErasedSegment, SegmentView};

verus! {

/// When a rule runs: with the main rules, or after them to clean up.
#[derive(Clone, Copy, Debug, PartialEq, Eq, Structural)]
pub enum LintPhase {
    Main,
    Post,
}

/// What a crawl hands back: the violations found in the tree as given and the
/// fixes proposed for it, or why the rule could not do its work.
pub type CrawlResult = Result<(Vec<SQLLintError>, Vec<LintFix>), RuleFailure>;

/// A lint rule.
///
/// A rule reads the tree that it is given and changes nothing. The anchors of
/// its fixes are to be anchors of that tree: a fix whose anchor the tree does
/// not hold is never applied.
///
/// A linter works with rules of one type. A set of different rules is an enum
/// that implements this trait by matching on itself.
///
/// The engine asks a rule for its phase and for whether it proposes fixes
/// once at the start of a run, and goes by those answers to the end of it.
pub trait Rule {
    /// The phase in which the rule runs.
    fn lint_phase(&self) -> LintPhase;

    /// Whether the rule ever proposes fixes.
    fn is_fix_compatible(&self) -> bool;

    /// Looks for violations in `tree`, and for fixes where `fix` asks for
    /// them.
    fn crawl(
        &self,
        dialect: Dialect,
        fix: bool,
        tree: &ErasedSegment,
        config: &FluffConfig,
    ) -> CrawlResult;
}

/// The two facts that decide when a rule runs.
#[derive(Clone, Copy, Debug, PartialEq, Eq, Structural)]
pub struct RuleMeta {
    pub phase: LintPhase,
    pub fix_compatible: bool,
}

/// The mathematical value of a [`CrawlResult`].
pub enum CrawlView {
    Failed(RuleFailureView),
    Found { violations: Seq<LintErrorView>, fixes: Seq<FixView> },
}

/// The value of what a crawl handed back.
pub open spec fn crawl_view(r: CrawlResult) -> CrawlView {
    match r {
        Ok((violations, fixes)) => CrawlView::Found {
            violations: lint_error_views(violations@),
            fixes: fix_views(fixes@),
        },
        Err(failure) => CrawlView::Failed(failure@),
    }
}

/// Whether `out` is the value of something that the rule may hand back for a
/// tree of the value `tree`.
pub open spec fn crawl_admits<R: Rule>(
    rule: R,
    fix: bool,
    config: FluffConfig,
    tree: SegmentView,
    out: CrawlView,
) -> bool {
    exists|t: ErasedSegment, r: CrawlResult|
        t@ == tree && crawl_view(r) == out && #[trigger] call_ensures(
            R::crawl,
            (&rule, Dialect::Ansi, fix, &t, &config),
            r,
        )
}

/// Whether `metas` holds, for each rule, facts that the rule may state of
/// itself.
pub open spec fn metas_admit<R: Rule>(rules: Seq<R>, metas: Seq<RuleMeta>) -> bool {
    &&& metas.len() == rules.len()
    &&& forall|i: int|
        0 <= i < rules.len() ==> call_ensures(
            R::lint_phase,
            (&rules[i],),
            (#[trigger] metas[i]).phase,
        )
    &&& forall|i: int|
        0 <= i < rules.len() ==> call_ensures(
            R::is_fix_compatible,
            (&rules[i],),
            (#[trigger] metas[i]).fix_compatible,
        )
}

/// Asks each rule for its phase and for whether it proposes fixes.
pub fn rule_metas<R: Rule>(rules: &Vec<R>) -> (metas: Vec<RuleMeta>)
    ensures
        metas_admit(rules@, metas@),
{
    let mut metas: Vec<RuleMeta> = Vec::new();
    let mut i: usize = 0;
    while i < rules.len()
        invariant
            i <= rules.len(),
            metas@.len() == i,
            forall|j: int|
                0 <= j < i ==> call_ensures(
                    R::lint_phase,
                    (&rules@[j],),
                    (#[trigger] metas@[j]).phase,
                ),
            forall|j: int|
                0 <= j < i ==> call_ensures(
                    R::is_fix_compatible,
                    (&rules@[j],),
                    (#[trigger] metas@[j]).fix_compatible,
                ),
        decreases rules.len() - i,
    {
        let phase = rules[i].lint_phase();
        let fix_compatible = rules[i].is_fix_compatible();
        metas.push(RuleMeta { phase, fix_compatible });
        i += 1;
    }
    metas
}

/// Whether a rule runs in a pass.
///
/// When fixing, a rule runs only in its own phase, and after the first pass
/// of the run only if it proposes fixes. When only linting, every rule runs.
pub open spec fn runs(meta: RuleMeta, fix: bool, phase: LintPhase, first: bool) -> bool {
    &&& fix ==> meta.phase == phase
    &&& !(fix && !first && !meta.fix_compatible)
}

/// Whether a rule runs in a pass.
pub fn should_crawl(meta: RuleMeta, fix: bool, phase: LintPhase, first: bool) -> (b: bool)
    ensures
        b == runs(meta, fix, phase, first),
        fix && !first && !meta.fix_compatible ==> !b,
{
    if fix && meta.phase != phase {
        false
    } else {
        !(fix && !first && !meta.fix_compatible)
    }
}

} // verus!
