//! The lint and fix loop: phases, passes, and what each crawl does to the
//! tree and to the violations.
//!
//! A run is described by the values that the crawls handed back. Given those,
//! everything else is fixed: the tree that each crawl saw, what became of its
//! fixes, which violations are kept, and when the passes stop.

use vstd::prelude::*;
use crate::config::{Dialect, FluffConfig};
use crate::errors::{
    fault_views, lint_error_views, LintErrorView, RuleFault, RuleFaultView, SQLLintError,
};
use crate::plan::{compute_anchor_edit_info, plan_of};
use crate::rewrite::{apply_fixes, coherent, rewritten_tree};
use crate::rules::{
    crawl_admits, crawl_view, metas_admit, rule_metas, runs, should_crawl, CrawlResult, CrawlView,
    LintPhase, Rule, RuleMeta,
};
use crate::segment::{ErasedSegment, SegmentView};

verus! {

/// Where a run stands: the working tree, the violations kept so far, the
/// rules whose work was set aside, and whether the pass at hand has changed
/// the tree.
pub struct LintState {
    pub tree: SegmentView,
    pub violations: Seq<LintErrorView>,
    pub faults: Seq<RuleFaultView>,
    pub changed: bool,
}

/// The executable form of [`LintState`].
#[derive(Debug, PartialEq, Eq)]
pub struct LintProgress {
    pub tree: ErasedSegment,
    pub violations: Vec<SQLLintError>,
    pub faults: Vec<RuleFault>,
    pub changed: bool,
}

impl View for LintProgress {
    type V = LintState;

    open spec fn view(&self) -> LintState {
        LintState {
            tree: self.tree@,
            violations: lint_error_views(self.violations@),
            faults: fault_views(self.faults@),
            changed: self.changed,
        }
    }
}

/// The state at the start of a run on `tree`.
pub open spec fn initial(tree: SegmentView) -> LintState {
    LintState { tree, violations: Seq::empty(), faults: Seq::empty(), changed: false }
}

/// The state `s` at the start of a pass.
pub open spec fn fresh(s: LintState) -> LintState {
    LintState { changed: false, ..s }
}

/// The state after the rule at place `rule` handed back `out`.
///
/// The violations are kept only in the first pass of the run. When fixing,
/// the fixes are grouped by anchor and the tree is rewritten; the new tree
/// takes the place of the old one only if it is coherent, and else the rule
/// is noted as a fault and the pass does not count as changed by it. A failed
/// crawl is noted as a fault and changes nothing else.
#[verifier::opaque]
pub open spec fn after_crawl(
    s: LintState,
    rule: usize,
    fix: bool,
    first: bool,
    out: CrawlView,
) -> LintState {
    match out {
        CrawlView::Failed(failure) => LintState {
            faults: s.faults.push(RuleFaultView::CrawlFailed { rule, failure }),
            ..s
        },
        CrawlView::Found { violations, fixes } => {
            let seen = if first {
                s.violations + violations
            } else {
                s.violations
            };
            if fix && fixes.len() > 0 {
                let tree = rewritten_tree(s.tree, plan_of(fixes));
                if coherent(tree) {
                    LintState { tree, violations: seen, faults: s.faults, changed: true }
                } else {
                    LintState {
                        tree: s.tree,
                        violations: seen,
                        faults: s.faults.push(RuleFaultView::RewriteRejected { rule }),
                        changed: s.changed,
                    }
                }
            } else {
                LintState { violations: seen, ..s }
            }
        },
    }
}

/// The state after the first `k` rules of a pass that starts in `s0`, where
/// `outs[i]` is what the crawl of rule `i` handed back. The entry of a rule
/// that does not run in the pass is not read.
pub open spec fn after_rules(
    metas: Seq<RuleMeta>,
    fix: bool,
    phase: LintPhase,
    first: bool,
    s0: LintState,
    outs: Seq<CrawlView>,
    k: nat,
) -> LintState
    decreases k,
{
    if k == 0 {
        s0
    } else {
        let s = after_rules(metas, fix, phase, first, s0, outs, (k - 1) as nat);
        if runs(metas[k - 1], fix, phase, first) {
            after_crawl(s, (k - 1) as usize, fix, first, outs[k - 1])
        } else {
            s
        }
    }
}

/// Whether `outs` holds, for each rule that runs in the pass, something that
/// the rule may hand back for the tree that it is given.
#[verifier::opaque]
pub open spec fn pass_admits<R: Rule>(
    rules: Seq<R>,
    metas: Seq<RuleMeta>,
    config: FluffConfig,
    fix: bool,
    phase: LintPhase,
    first: bool,
    s0: LintState,
    outs: Seq<CrawlView>,
) -> bool {
    &&& outs.len() == rules.len()
    &&& forall|i: int|
        0 <= i < rules.len() && runs(metas[i], fix, phase, first) ==> crawl_admits(
            rules[i],
            fix,
            config,
            after_rules(metas, fix, phase, first, s0, outs, i as nat).tree,
            #[trigger] outs[i],
        )
}

/// The most passes of the main phase when fixing.
pub const RUNAWAY_LIMIT: usize = 10;

/// The most passes of the phase after the main phase.
pub const POST_LIMIT: usize = 2;

/// The most passes that a phase makes: ten in the main phase when fixing, one
/// when only linting, and two in the phase after it.
pub open spec fn pass_limit(phase: LintPhase, fix: bool) -> nat {
    match phase {
        LintPhase::Main => if fix {
            RUNAWAY_LIMIT as nat
        } else {
            1
        },
        LintPhase::Post => POST_LIMIT as nat,
    }
}

/// The state after the first `n` passes of a phase that starts in `s0`, where
/// `passes[j]` holds what the crawls of pass `j` handed back. Only the first
/// pass of the first phase counts as the first pass of the run.
pub open spec fn after_passes(
    metas: Seq<RuleMeta>,
    fix: bool,
    phase: LintPhase,
    first_phase: bool,
    s0: LintState,
    passes: Seq<Seq<CrawlView>>,
    n: nat,
) -> LintState
    decreases n,
{
    if n == 0 {
        s0
    } else {
        after_rules(
            metas,
            fix,
            phase,
            first_phase && n == 1,
            fresh(after_passes(metas, fix, phase, first_phase, s0, passes, (n - 1) as nat)),
            passes[n - 1],
            metas.len(),
        )
    }
}

/// Whether `passes` describes a phase as the engine runs it: at least one
/// pass and at most the limit; each crawl handed back something that its rule
/// admits; when fixing, every pass but the last changed the tree; and the last
/// pass either reached the limit or, when fixing, changed nothing.
pub open spec fn phase_admits<R: Rule>(
    rules: Seq<R>,
    metas: Seq<RuleMeta>,
    config: FluffConfig,
    fix: bool,
    phase: LintPhase,
    first_phase: bool,
    s0: LintState,
    passes: Seq<Seq<CrawlView>>,
) -> bool {
    &&& 1 <= passes.len() <= pass_limit(phase, fix)
    &&& forall|n: int|
        0 <= n < passes.len() ==> pass_admits(
            rules,
            metas,
            config,
            fix,
            phase,
            first_phase && n == 0,
            fresh(after_passes(metas, fix, phase, first_phase, s0, passes, n as nat)),
            #[trigger] passes[n],
        )
    &&& forall|n: nat|
        1 <= n < passes.len() && fix ==> (#[trigger] after_passes(
            metas,
            fix,
            phase,
            first_phase,
            s0,
            passes,
            n,
        )).changed
    &&& passes.len() == pass_limit(phase, fix) || (fix && !after_passes(
        metas,
        fix,
        phase,
        first_phase,
        s0,
        passes,
        passes.len(),
    ).changed)
}

/// What the rules said of themselves and what their crawls handed back, pass
/// by pass, in the main phase and in the phase after it.
pub struct RunLog {
    pub metas: Seq<RuleMeta>,
    pub main: Seq<Seq<CrawlView>>,
    pub post: Seq<Seq<CrawlView>>,
}

/// The state after the main phase of the run that `log` describes.
pub open spec fn after_main(log: RunLog, fix: bool, tree: SegmentView) -> LintState {
    after_passes(log.metas, fix, LintPhase::Main, true, initial(tree), log.main, log.main.len())
}

/// The state at the end of the run that `log` describes. The phase after the
/// main phase takes place only when fixing.
pub open spec fn run_result(log: RunLog, fix: bool, tree: SegmentView) -> LintState {
    if fix {
        after_passes(
            log.metas,
            fix,
            LintPhase::Post,
            false,
            after_main(log, fix, tree),
            log.post,
            log.post.len(),
        )
    } else {
        after_main(log, fix, tree)
    }
}

/// Whether `log` describes a run of the engine with these rules on `tree`.
#[verifier::opaque]
pub open spec fn run_admits<R: Rule>(
    rules: Seq<R>,
    config: FluffConfig,
    fix: bool,
    tree: SegmentView,
    log: RunLog,
) -> bool {
    &&& metas_admit(rules, log.metas)
    &&& phase_admits(rules, log.metas, config, fix, LintPhase::Main, true, initial(tree), log.main)
    &&& if fix {
        phase_admits(
            rules,
            log.metas,
            config,
            fix,
            LintPhase::Post,
            false,
            after_main(log, fix, tree),
            log.post,
        )
    } else {
        log.post.len() == 0
    }
}

/// The state after `k` rules depends on what the first `k` crawls handed
/// back, and on nothing after them.
pub proof fn lemma_after_rules_prefix(
    metas: Seq<RuleMeta>,
    fix: bool,
    phase: LintPhase,
    first: bool,
    s0: LintState,
    a: Seq<CrawlView>,
    b: Seq<CrawlView>,
    k: nat,
)
    requires
        forall|i: int| 0 <= i < k ==> a[i] == b[i],
    ensures
        after_rules(metas, fix, phase, first, s0, a, k) == after_rules(
            metas,
            fix,
            phase,
            first,
            s0,
            b,
            k,
        ),
    decreases k,
{
    if k > 0 {
        lemma_after_rules_prefix(metas, fix, phase, first, s0, a, b, (k - 1) as nat);
    }
}

/// The state after `n` passes depends on the first `n` passes, and on nothing
/// after them.
pub proof fn lemma_after_passes_prefix(
    metas: Seq<RuleMeta>,
    fix: bool,
    phase: LintPhase,
    first_phase: bool,
    s0: LintState,
    a: Seq<Seq<CrawlView>>,
    b: Seq<Seq<CrawlView>>,
    n: nat,
)
    requires
        forall|i: int| 0 <= i < n ==> a[i] == b[i],
    ensures
        after_passes(metas, fix, phase, first_phase, s0, a, n) == after_passes(
            metas,
            fix,
            phase,
            first_phase,
            s0,
            b,
            n,
        ),
    decreases n,
{
    if n > 0 {
        lemma_after_passes_prefix(metas, fix, phase, first_phase, s0, a, b, (n - 1) as nat);
    }
}

impl LintProgress {
    /// The start of a run on `tree`.
    pub fn new(tree: ErasedSegment) -> (p: LintProgress)
        ensures
            p@ == initial(tree@),
    {
        let p = LintProgress { tree, violations: Vec::new(), faults: Vec::new(), changed: false };
        proof {
            assert(p@.violations =~= Seq::<LintErrorView>::empty());
            assert(p@.faults =~= Seq::<RuleFaultView>::empty());
        }
        p
    }

    /// Takes in what the crawl of the rule at place `rule` handed back.
    pub fn absorb(&mut self, rule: usize, fix: bool, first: bool, out: CrawlResult)
        ensures
            final(self)@ == after_crawl(old(self)@, rule, fix, first, crawl_view(out)),
    {
        let ghost before = *self;
        reveal(after_crawl);
        match out {
            Err(failure) => {
                self.faults.push(RuleFault::CrawlFailed { rule, failure });
                proof {
                    assert(fault_views(self.faults@) =~= fault_views(before.faults@).push(
                        RuleFaultView::CrawlFailed { rule, failure: failure@ },
                    ));
                }
            },
            Ok((violations, fixes)) => {
                let mut violations = violations;
                let ghost found = violations@;
                if first {
                    self.violations.append(&mut violations);
                    proof {
                        assert(lint_error_views(self.violations@) =~= lint_error_views(
                            before.violations@,
                        ) + lint_error_views(found));
                    }
                }
                if fix && fixes.len() > 0 {
                    let anchor_info = compute_anchor_edit_info(fixes);
                    let (tree, _, _, valid) = apply_fixes(&self.tree, Dialect::Ansi, &anchor_info);
                    if valid {
                        self.tree = tree;
                        self.changed = true;
                    } else {
                        self.faults.push(RuleFault::RewriteRejected { rule });
                        proof {
                            assert(fault_views(self.faults@) =~= fault_views(before.faults@).push(
                                RuleFaultView::RewriteRejected { rule },
                            ));
                        }
                    }
                }
            },
        }
    }
}

/// Whether the pass that led from `before` to `after` can be described by
/// what its crawls handed back.
pub open spec fn pass_explained<R: Rule>(
    rules: Seq<R>,
    metas: Seq<RuleMeta>,
    config: FluffConfig,
    fix: bool,
    phase: LintPhase,
    first: bool,
    before: LintState,
    after: LintState,
) -> bool {
    exists|outs: Seq<CrawlView>|
        #[trigger] pass_admits(rules, metas, config, fix, phase, first, before, outs) && after
            == after_rules(metas, fix, phase, first, before, outs, rules.len())
}

/// Whether the phase that led from `before` to `after` can be described by
/// what its crawls handed back.
pub open spec fn phase_explained<R: Rule>(
    rules: Seq<R>,
    metas: Seq<RuleMeta>,
    config: FluffConfig,
    fix: bool,
    phase: LintPhase,
    first_phase: bool,
    before: LintState,
    after: LintState,
) -> bool {
    exists|passes: Seq<Seq<CrawlView>>|
        #[trigger] phase_admits(rules, metas, config, fix, phase, first_phase, before, passes)
            && after == after_passes(
            metas,
            fix,
            phase,
            first_phase,
            before,
            passes,
            passes.len(),
        )
}

/// Whether the tree, the violations and the faults are those at the end of a
/// run of the rules on `tree`: whether some log describes a run of the engine
/// that ends with them.
pub open spec fn lint_explained<R: Rule>(
    rules: Seq<R>,
    config: FluffConfig,
    fix: bool,
    tree: SegmentView,
    after: SegmentView,
    violations: Seq<LintErrorView>,
    faults: Seq<RuleFaultView>,
) -> bool {
    exists|log: RunLog| #[trigger]
        run_admits(rules, config, fix, tree, log) && run_result(log, fix, tree).tree == after
            && run_result(log, fix, tree).violations == violations && run_result(
            log,
            fix,
            tree,
        ).faults == faults
}

/// One pass: each rule that runs in it crawls the working tree, in the order
/// of the rules, and what it hands back is taken in before the next rule
/// crawls.
pub(crate) fn run_pass<R: Rule>(
    rules: &Vec<R>,
    metas: &Vec<RuleMeta>,
    config: &FluffConfig,
    fix: bool,
    phase: LintPhase,
    first: bool,
    progress: &mut LintProgress,
)
    requires
        metas@.len() == rules@.len(),
    ensures
        pass_explained(
            rules@,
            metas@,
            *config,
            fix,
            phase,
            first,
            old(progress)@,
            final(progress)@,
        ),
{
    let ghost s0 = progress@;
    let ghost mut outs: Seq<CrawlView> = Seq::empty();
    let mut i: usize = 0;
    while i < rules.len()
        invariant
            i <= rules.len(),
            metas@.len() == rules@.len(),
            outs.len() == i,
            progress@ == after_rules(metas@, fix, phase, first, s0, outs, i as nat),
            forall|j: int|
                0 <= j < i && runs(metas@[j], fix, phase, first) ==> crawl_admits(
                    rules@[j],
                    fix,
                    *config,
                    after_rules(metas@, fix, phase, first, s0, outs, j as nat).tree,
                    #[trigger] outs[j],
                ),
        decreases rules.len() - i,
    {
        let ghost held = outs;
        let ghost seen = progress@;
        if should_crawl(metas[i], fix, phase, first) {
            let out = rules[i].crawl(Dialect::Ansi, fix, &progress.tree, config);
            proof {
                outs = held.push(crawl_view(out));
                assert(crawl_admits(rules@[i as int], fix, *config, seen.tree, crawl_view(out)));
            }
            progress.absorb(i, fix, first, out);
        } else {
            proof {
                outs = held.push(
                    CrawlView::Found { violations: Seq::empty(), fixes: Seq::empty() },
                );
            }
        }
        proof {
            assert forall|k: nat| k <= i implies #[trigger] after_rules(
                metas@,
                fix,
                phase,
                first,
                s0,
                outs,
                k,
            ) == after_rules(metas@, fix, phase, first, s0, held, k) by {
                lemma_after_rules_prefix(metas@, fix, phase, first, s0, outs, held, k);
            }
            assert forall|j: int|
                0 <= j < i + 1 && runs(metas@[j], fix, phase, first) implies crawl_admits(
                rules@[j],
                fix,
                *config,
                after_rules(metas@, fix, phase, first, s0, outs, j as nat).tree,
                #[trigger] outs[j],
            ) by {
                if j < i {
                    assert(outs[j] == held[j]);
                }
            }
            let prev = after_rules(metas@, fix, phase, first, s0, outs, i as nat);
            assert(prev == seen);
            assert(after_rules(metas@, fix, phase, first, s0, outs, (i + 1) as nat) == if runs(
                metas@[i as int],
                fix,
                phase,
                first,
            ) {
                after_crawl(prev, i, fix, first, outs[i as int])
            } else {
                prev
            });
        }
        i += 1;
    }
    proof {
        reveal(pass_admits);
        assert(pass_admits(rules@, metas@, *config, fix, phase, first, s0, outs));
    }
}

/// One phase: passes until one changes nothing or the limit of the phase is
/// reached. When only linting, the single pass of the main phase.
pub(crate) fn run_phase<R: Rule>(
    rules: &Vec<R>,
    metas: &Vec<RuleMeta>,
    config: &FluffConfig,
    fix: bool,
    phase: LintPhase,
    first_phase: bool,
    progress: &mut LintProgress,
)
    requires
        metas@.len() == rules@.len(),
    ensures
        phase_explained(
            rules@,
            metas@,
            *config,
            fix,
            phase,
            first_phase,
            old(progress)@,
            final(progress)@,
        ),
{
    let limit: usize = match phase {
        LintPhase::Main => if fix {
            RUNAWAY_LIMIT
        } else {
            1
        },
        LintPhase::Post => POST_LIMIT,
    };
    let ghost s0 = progress@;
    let ghost mut passes: Seq<Seq<CrawlView>> = Seq::empty();
    let mut n: usize = 0;
    let mut going = true;
    while going && n < limit
        invariant
            n <= limit,
            limit == pass_limit(phase, fix),
            metas@.len() == rules@.len(),
            passes.len() == n,
            n == 0 ==> going,
            progress@ == after_passes(metas@, fix, phase, first_phase, s0, passes, n as nat),
            forall|m: int|
                0 <= m < n ==> pass_admits(
                    rules@,
                    metas@,
                    *config,
                    fix,
                    phase,
                    first_phase && m == 0,
                    fresh(after_passes(metas@, fix, phase, first_phase, s0, passes, m as nat)),
                    #[trigger] passes[m],
                ),
            forall|m: nat|
                1 <= m < n && fix ==> (#[trigger] after_passes(
                    metas@,
                    fix,
                    phase,
                    first_phase,
                    s0,
                    passes,
                    m,
                )).changed,
            going && fix && n >= 1 ==> progress@.changed,
            !going ==> fix && !progress@.changed,
        decreases limit - n,
    {
        let ghost held = passes;
        let first = first_phase && n == 0;
        progress.changed = false;
        let ghost start = progress@;
        run_pass(rules, metas, config, fix, phase, first, progress);
        proof {
            assert(start == fresh(
                after_passes(metas@, fix, phase, first_phase, s0, held, n as nat),
            ));
            let outs = choose|outs: Seq<CrawlView>|
                #[trigger] pass_admits(rules@, metas@, *config, fix, phase, first, start, outs)
                    && progress@ == after_rules(
                    metas@,
                    fix,
                    phase,
                    first,
                    start,
                    outs,
                    rules@.len(),
                );
            passes = held.push(outs);
            assert forall|m: nat| m <= n implies #[trigger] after_passes(
                metas@,
                fix,
                phase,
                first_phase,
                s0,
                passes,
                m,
            ) == after_passes(metas@, fix, phase, first_phase, s0, held, m) by {
                lemma_after_passes_prefix(metas@, fix, phase, first_phase, s0, passes, held, m);
            }
            assert(passes[n as int] == outs);
            assert forall|m: int| 0 <= m < n + 1 implies pass_admits(
                rules@,
                metas@,
                *config,
                fix,
                phase,
                first_phase && m == 0,
                fresh(after_passes(metas@, fix, phase, first_phase, s0, passes, m as nat)),
                #[trigger] passes[m],
            ) by {
                if m < n {
                    assert(passes[m] == held[m]);
                }
            }
        }
        n += 1;
        if fix && !progress.changed {
            going = false;
        }
    }
    proof {
        assert(phase_admits(rules@, metas@, *config, fix, phase, first_phase, s0, passes));
    }
}

/// Lints a tree, and fixes it where `fix` asks for it.
///
/// Returns the final tree, the violations of the first pass, and the rules
/// whose work was set aside.
pub fn lint_tree<R: Rule>(
    rules: &Vec<R>,
    config: &FluffConfig,
    tree: ErasedSegment,
    fix: bool,
) -> (r: LintProgress)
    ensures
        lint_explained(
            rules@,
            *config,
            fix,
            tree@,
            r.tree@,
            lint_error_views(r.violations@),
            fault_views(r.faults@),
        ),
{
    let metas = rule_metas(rules);
    let mut progress = LintProgress::new(tree);
    let ghost s0 = progress@;
    run_phase(rules, &metas, config, fix, LintPhase::Main, true, &mut progress);
    let ghost s1 = progress@;
    let ghost main = choose|passes: Seq<Seq<CrawlView>>|
        #[trigger] phase_admits(rules@, metas@, *config, fix, LintPhase::Main, true, s0, passes)
            && s1 == after_passes(metas@, fix, LintPhase::Main, true, s0, passes, passes.len());
    if fix {
        run_phase(rules, &metas, config, fix, LintPhase::Post, false, &mut progress);
        proof {
            let post = choose|passes: Seq<Seq<CrawlView>>|
                #[trigger] phase_admits(
                    rules@,
                    metas@,
                    *config,
                    fix,
                    LintPhase::Post,
                    false,
                    s1,
                    passes,
                ) && progress@ == after_passes(
                    metas@,
                    fix,
                    LintPhase::Post,
                    false,
                    s1,
                    passes,
                    passes.len(),
                );
            let log = RunLog { metas: metas@, main, post };
            reveal(run_admits);
            assert(run_admits(rules@, *config, fix, tree@, log));
            assert(run_result(log, fix, tree@) == progress@);
        }
    } else {
        proof {
            let log = RunLog { metas: metas@, main, post: Seq::empty() };
            reveal(run_admits);
            assert(run_admits(rules@, *config, fix, tree@, log));
            assert(run_result(log, fix, tree@) == progress@);
        }
    }
    progress
}

} // verus!
