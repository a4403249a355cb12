//! What holds of every run of the engine.

use vstd::map::*;
use vstd::prelude::*;
use crate::config::FluffConfig;
use crate::errors::{LintErrorView, RuleFaultView};
use crate::fix::{is_creation, resolve, FixView};
use crate::plan::{fixes_at, lemma_incompatible_fixes_conflict, plan_of, targets, Plan};
use crate::rewrite::{coherent, rebuild, rewrite_child, rewrite_prefix, rewritten_tree};
use crate::rules::{crawl_admits, runs, CrawlView, LintPhase, Rule, RuleMeta};
use crate::run::{
    after_crawl, after_main, after_passes, after_rules, fresh, initial, lint_explained,
    pass_admits, pass_limit, phase_admits, run_admits, run_result, LintState, RunLog,
};
use crate::segment::{anchors, anchors_of_prefix, SegmentView};

verus! {

/// Whether the rule hands back the same value whenever it is given a tree of
/// the same value, and always states the same of itself.
pub open spec fn is_deterministic<R: Rule>(rule: R, config: FluffConfig) -> bool {
    &&& forall|fix: bool, tree: SegmentView, a: CrawlView, b: CrawlView|
        #[trigger] crawl_admits(rule, fix, config, tree, a) && #[trigger] crawl_admits(
            rule,
            fix,
            config,
            tree,
            b,
        ) ==> a == b
    &&& forall|a: LintPhase, b: LintPhase|
        #[trigger] call_ensures(R::lint_phase, (&rule,), a) && #[trigger] call_ensures(
            R::lint_phase,
            (&rule,),
            b,
        ) ==> a == b
    &&& forall|a: bool, b: bool|
        #[trigger] call_ensures(R::is_fix_compatible, (&rule,), a) && #[trigger] call_ensures(
            R::is_fix_compatible,
            (&rule,),
            b,
        ) ==> a == b
}

/// Whether each of the rules is deterministic in that sense.
pub open spec fn are_deterministic<R: Rule>(rules: Seq<R>, config: FluffConfig) -> bool {
    forall|i: int| 0 <= i < rules.len() ==> is_deterministic(#[trigger] rules[i], config)
}

/// Two passes of deterministic rules, from the same state, end in the
/// same state.
pub proof fn lemma_deterministic_passes_agree<R: Rule>(
    rules: Seq<R>,
    metas: Seq<RuleMeta>,
    config: FluffConfig,
    fix: bool,
    phase: LintPhase,
    first: bool,
    s0: LintState,
    a: Seq<CrawlView>,
    b: Seq<CrawlView>,
    k: nat,
)
    requires
        are_deterministic(rules, config),
        pass_admits(rules, metas, config, fix, phase, first, s0, a),
        pass_admits(rules, metas, config, fix, phase, first, s0, b),
        k <= rules.len(),
    ensures
        after_rules(metas, fix, phase, first, s0, a, k) == after_rules(
            metas,
            fix,
            phase,
            first,
            s0,
            b,
            k,
        ),
    decreases k,
{
    if k > 0 {
        lemma_deterministic_passes_agree(
            rules,
            metas,
            config,
            fix,
            phase,
            first,
            s0,
            a,
            b,
            (k - 1) as nat,
        );
        reveal(pass_admits);
        if runs(metas[k - 1], fix, phase, first) {
            let tree = after_rules(metas, fix, phase, first, s0, a, (k - 1) as nat).tree;
            assert(crawl_admits(rules[k - 1], fix, config, tree, a[k - 1]));
            assert(crawl_admits(rules[k - 1], fix, config, tree, b[k - 1]));
            assert(is_deterministic(rules[k - 1], config));
        }
    }
}

/// Two phases of deterministic rules, from the same state, stand in the
/// same state after each pass that both make.
pub proof fn lemma_deterministic_phases_agree<R: Rule>(
    rules: Seq<R>,
    metas: Seq<RuleMeta>,
    config: FluffConfig,
    fix: bool,
    phase: LintPhase,
    first_phase: bool,
    s0: LintState,
    a: Seq<Seq<CrawlView>>,
    b: Seq<Seq<CrawlView>>,
    n: nat,
)
    requires
        are_deterministic(rules, config),
        metas.len() == rules.len(),
        phase_admits(rules, metas, config, fix, phase, first_phase, s0, a),
        phase_admits(rules, metas, config, fix, phase, first_phase, s0, b),
        n <= a.len(),
        n <= b.len(),
    ensures
        after_passes(metas, fix, phase, first_phase, s0, a, n) == after_passes(
            metas,
            fix,
            phase,
            first_phase,
            s0,
            b,
            n,
        ),
    decreases n,
{
    if n > 0 {
        lemma_deterministic_phases_agree(
            rules,
            metas,
            config,
            fix,
            phase,
            first_phase,
            s0,
            a,
            b,
            (n - 1) as nat,
        );
        let start = fresh(after_passes(metas, fix, phase, first_phase, s0, a, (n - 1) as nat));
        let m = n - 1;
        assert(pass_admits(rules, metas, config, fix, phase, first_phase && m == 0, start, a[m]));
        assert(pass_admits(rules, metas, config, fix, phase, first_phase && m == 0, start, b[m]));
        lemma_deterministic_passes_agree(
            rules,
            metas,
            config,
            fix,
            phase,
            first_phase && n == 1,
            start,
            a[m],
            b[m],
            rules.len(),
        );
    }
}

/// Two phases of deterministic rules, from the same state, make the same
/// number of passes and end in the same state.
pub proof fn lemma_deterministic_phases_end_alike<R: Rule>(
    rules: Seq<R>,
    metas: Seq<RuleMeta>,
    config: FluffConfig,
    fix: bool,
    phase: LintPhase,
    first_phase: bool,
    s0: LintState,
    a: Seq<Seq<CrawlView>>,
    b: Seq<Seq<CrawlView>>,
)
    requires
        are_deterministic(rules, config),
        metas.len() == rules.len(),
        phase_admits(rules, metas, config, fix, phase, first_phase, s0, a),
        phase_admits(rules, metas, config, fix, phase, first_phase, s0, b),
    ensures
        a.len() == b.len(),
        after_passes(metas, fix, phase, first_phase, s0, a, a.len()) == after_passes(
            metas,
            fix,
            phase,
            first_phase,
            s0,
            b,
            b.len(),
        ),
{
    let n = if a.len() <= b.len() {
        a.len()
    } else {
        b.len()
    };
    lemma_deterministic_phases_agree(rules, metas, config, fix, phase, first_phase, s0, a, b, n);
    if a.len() < b.len() {
        assert(after_passes(metas, fix, phase, first_phase, s0, b, n).changed);
    }
    if b.len() < a.len() {
        assert(after_passes(metas, fix, phase, first_phase, s0, a, n).changed);
    }
}

/// Two runs of deterministic rules, on trees of the same value, end in
/// the same state.
pub proof fn lemma_deterministic_runs_agree<R: Rule>(
    rules: Seq<R>,
    config: FluffConfig,
    fix: bool,
    tree: SegmentView,
    a: RunLog,
    b: RunLog,
)
    requires
        are_deterministic(rules, config),
        run_admits(rules, config, fix, tree, a),
        run_admits(rules, config, fix, tree, b),
    ensures
        run_result(a, fix, tree) == run_result(b, fix, tree),
{
    reveal(run_admits);
    assert(a.metas =~= b.metas) by {
        assert forall|i: int| 0 <= i < rules.len() implies a.metas[i] == b.metas[i] by {
            assert(is_deterministic(rules[i], config));
        }
    }
    let metas = a.metas;
    lemma_deterministic_phases_end_alike(
        rules,
        metas,
        config,
        fix,
        LintPhase::Main,
        true,
        initial(tree),
        a.main,
        b.main,
    );
    if fix {
        lemma_deterministic_phases_end_alike(
            rules,
            metas,
            config,
            fix,
            LintPhase::Post,
            false,
            after_main(a, fix, tree),
            a.post,
            b.post,
        );
    }
}

/// Linting is idempotent: linting a tree twice without fixing, with
/// deterministic rules, gives the same violations both times, and leaves the
/// tree as it was.
pub proof fn lemma_lint_is_idempotent<R: Rule>(
    rules: Seq<R>,
    config: FluffConfig,
    tree: SegmentView,
    first_tree: SegmentView,
    first_violations: Seq<LintErrorView>,
    first_faults: Seq<RuleFaultView>,
    second_tree: SegmentView,
    second_violations: Seq<LintErrorView>,
    second_faults: Seq<RuleFaultView>,
)
    requires
        are_deterministic(rules, config),
        lint_explained(rules, config, false, tree, first_tree, first_violations, first_faults),
        lint_explained(rules, config, false, tree, second_tree, second_violations, second_faults),
    ensures
        first_violations == second_violations,
        first_faults == second_faults,
        first_tree == tree,
        second_tree == tree,
{
    let a = choose|log: RunLog| #[trigger]
        run_admits(rules, config, false, tree, log) && run_result(log, false, tree).tree
            == first_tree && run_result(log, false, tree).violations == first_violations
            && run_result(log, false, tree).faults == first_faults;
    let b = choose|log: RunLog| #[trigger]
        run_admits(rules, config, false, tree, log) && run_result(log, false, tree).tree
            == second_tree && run_result(log, false, tree).violations == second_violations
            && run_result(log, false, tree).faults == second_faults;
    lemma_deterministic_runs_agree(rules, config, false, tree, a, b);
    lemma_tree_kept_without_fix(a, tree);
}

/// Without fixing, no crawl changes the tree.
pub proof fn lemma_rules_keep_tree_without_fix(
    metas: Seq<RuleMeta>,
    phase: LintPhase,
    first: bool,
    s0: LintState,
    outs: Seq<CrawlView>,
    k: nat,
)
    ensures
        after_rules(metas, false, phase, first, s0, outs, k).tree == s0.tree,
    decreases k,
{
    if k > 0 {
        lemma_rules_keep_tree_without_fix(metas, phase, first, s0, outs, (k - 1) as nat);
        reveal(after_crawl);
    }
}

/// Without fixing, no pass changes the tree.
pub proof fn lemma_passes_keep_tree_without_fix(
    metas: Seq<RuleMeta>,
    phase: LintPhase,
    first_phase: bool,
    s0: LintState,
    passes: Seq<Seq<CrawlView>>,
    n: nat,
)
    ensures
        after_passes(metas, false, phase, first_phase, s0, passes, n).tree == s0.tree,
    decreases n,
{
    if n > 0 {
        lemma_passes_keep_tree_without_fix(metas, phase, first_phase, s0, passes, (n - 1) as nat);
        lemma_rules_keep_tree_without_fix(
            metas,
            phase,
            first_phase && n == 1,
            fresh(after_passes(metas, false, phase, first_phase, s0, passes, (n - 1) as nat)),
            passes[n - 1],
            metas.len(),
        );
    }
}

/// Without fixing, a run ends with the tree that it began with.
pub proof fn lemma_tree_kept_without_fix(log: RunLog, tree: SegmentView)
    ensures
        run_result(log, false, tree).tree == tree,
{
    lemma_passes_keep_tree_without_fix(
        log.metas,
        LintPhase::Main,
        true,
        initial(tree),
        log.main,
        log.main.len(),
    );
}

/// A crawl leaves a coherent tree coherent, and a crawl that does not mark
/// the pass as changed leaves the tree as it was.
pub proof fn lemma_crawl_keeps_coherence(
    s: LintState,
    rule: usize,
    fix: bool,
    first: bool,
    out: CrawlView,
)
    ensures
        coherent(s.tree) ==> coherent(after_crawl(s, rule, fix, first, out).tree),
        !after_crawl(s, rule, fix, first, out).changed ==> after_crawl(
            s,
            rule,
            fix,
            first,
            out,
        ).tree == s.tree && !s.changed,
{
    reveal(after_crawl);
}

/// Through a pass, a coherent tree stays coherent, and a pass that is not
/// marked as changed leaves the tree as it was.
pub proof fn lemma_pass_keeps_coherence(
    metas: Seq<RuleMeta>,
    fix: bool,
    phase: LintPhase,
    first: bool,
    s0: LintState,
    outs: Seq<CrawlView>,
    k: nat,
)
    ensures
        coherent(s0.tree) ==> coherent(after_rules(metas, fix, phase, first, s0, outs, k).tree),
        !after_rules(metas, fix, phase, first, s0, outs, k).changed ==> after_rules(
            metas,
            fix,
            phase,
            first,
            s0,
            outs,
            k,
        ).tree == s0.tree && !s0.changed,
    decreases k,
{
    if k > 0 {
        lemma_pass_keeps_coherence(metas, fix, phase, first, s0, outs, (k - 1) as nat);
        lemma_crawl_keeps_coherence(
            after_rules(metas, fix, phase, first, s0, outs, (k - 1) as nat),
            (k - 1) as usize,
            fix,
            first,
            outs[k - 1],
        );
    }
}

/// Through the passes of a phase, a coherent tree stays coherent.
pub proof fn lemma_phase_keeps_coherence(
    metas: Seq<RuleMeta>,
    fix: bool,
    phase: LintPhase,
    first_phase: bool,
    s0: LintState,
    passes: Seq<Seq<CrawlView>>,
    n: nat,
)
    requires
        coherent(s0.tree),
    ensures
        coherent(after_passes(metas, fix, phase, first_phase, s0, passes, n).tree),
    decreases n,
{
    if n > 0 {
        lemma_phase_keeps_coherence(metas, fix, phase, first_phase, s0, passes, (n - 1) as nat);
        lemma_pass_keeps_coherence(
            metas,
            fix,
            phase,
            first_phase && n == 1,
            fresh(after_passes(metas, fix, phase, first_phase, s0, passes, (n - 1) as nat)),
            passes[n - 1],
            metas.len(),
        );
    }
}

/// The working tree stays coherent: a run that starts on a tree in which no
/// anchor occurs twice ends on such a tree, whatever the rules hand back.
pub proof fn lemma_run_keeps_coherence(log: RunLog, fix: bool, tree: SegmentView)
    requires
        coherent(tree),
    ensures
        coherent(run_result(log, fix, tree).tree),
{
    lemma_phase_keeps_coherence(
        log.metas,
        fix,
        LintPhase::Main,
        true,
        initial(tree),
        log.main,
        log.main.len(),
    );
    if fix {
        lemma_phase_keeps_coherence(
            log.metas,
            fix,
            LintPhase::Post,
            false,
            after_main(log, fix, tree),
            log.post,
            log.post.len(),
        );
    }
}

/// A phase ends on a pass that changed nothing, unless it ends at its limit:
/// when fixing, the last pass of a phase that made fewer passes than its
/// limit left the tree as it found it.
pub proof fn lemma_phase_ends_settled<R: Rule>(
    rules: Seq<R>,
    metas: Seq<RuleMeta>,
    config: FluffConfig,
    fix: bool,
    phase: LintPhase,
    first_phase: bool,
    s0: LintState,
    passes: Seq<Seq<CrawlView>>,
)
    requires
        phase_admits(rules, metas, config, fix, phase, first_phase, s0, passes),
        passes.len() < pass_limit(phase, fix),
    ensures
        fix,
        after_passes(metas, fix, phase, first_phase, s0, passes, passes.len()).tree
            == after_passes(
            metas,
            fix,
            phase,
            first_phase,
            s0,
            passes,
            (passes.len() - 1) as nat,
        ).tree,
{
    let n = passes.len();
    lemma_pass_keeps_coherence(
        metas,
        fix,
        phase,
        first_phase && n == 1,
        fresh(after_passes(metas, fix, phase, first_phase, s0, passes, (n - 1) as nat)),
        passes[n - 1],
        metas.len(),
    );
}

/// The passes are bounded: whatever the rules hand back, a run makes at least
/// one and at most ten passes in the main phase and at most two in the phase
/// after it; when only linting, it makes one pass in all.
pub proof fn lemma_passes_are_bounded<R: Rule>(
    rules: Seq<R>,
    config: FluffConfig,
    fix: bool,
    tree: SegmentView,
    log: RunLog,
)
    requires
        run_admits(rules, config, fix, tree, log),
    ensures
        1 <= log.main.len() <= 10,
        log.post.len() <= 2,
        !fix ==> log.main.len() == 1 && log.post.len() == 0,
{
    reveal(run_admits);
}

/// The violations that the crawls of the first `k` rules handed back in the
/// first pass of a run, in the order of the rules.
pub open spec fn reported(
    metas: Seq<RuleMeta>,
    fix: bool,
    outs: Seq<CrawlView>,
    k: nat,
) -> Seq<LintErrorView>
    decreases k,
{
    if k == 0 {
        Seq::empty()
    } else {
        let before = reported(metas, fix, outs, (k - 1) as nat);
        if runs(metas[k - 1], fix, LintPhase::Main, true) {
            match outs[k - 1] {
                CrawlView::Found { violations, fixes } => before + violations,
                CrawlView::Failed(_) => before,
            }
        } else {
            before
        }
    }
}

/// In the first pass of a run the violations that the crawls hand back are
/// kept, one rule after the other.
pub proof fn lemma_first_pass_keeps_violations(
    metas: Seq<RuleMeta>,
    fix: bool,
    s0: LintState,
    outs: Seq<CrawlView>,
    k: nat,
)
    ensures
        after_rules(metas, fix, LintPhase::Main, true, s0, outs, k).violations == s0.violations
            + reported(metas, fix, outs, k),
    decreases k,
{
    if k > 0 {
        lemma_first_pass_keeps_violations(metas, fix, s0, outs, (k - 1) as nat);
        reveal(after_crawl);
        let held = after_rules(metas, fix, LintPhase::Main, true, s0, outs, (k - 1) as nat);
        let now = after_rules(metas, fix, LintPhase::Main, true, s0, outs, k);
        assert(now.violations =~= s0.violations + reported(metas, fix, outs, k));
    } else {
        assert(s0.violations =~= s0.violations + reported(metas, fix, outs, 0));
    }
}

/// In a pass that is not the first of a run the violations stay as they are.
pub proof fn lemma_later_pass_keeps_violations(
    metas: Seq<RuleMeta>,
    fix: bool,
    phase: LintPhase,
    s0: LintState,
    outs: Seq<CrawlView>,
    k: nat,
)
    ensures
        after_rules(metas, fix, phase, false, s0, outs, k).violations == s0.violations,
    decreases k,
{
    if k > 0 {
        lemma_later_pass_keeps_violations(metas, fix, phase, s0, outs, (k - 1) as nat);
        reveal(after_crawl);
    }
}

/// After the first pass of a run the violations stay as they are, through
/// all the passes of a phase.
pub proof fn lemma_later_passes_keep_violations(
    metas: Seq<RuleMeta>,
    fix: bool,
    phase: LintPhase,
    first_phase: bool,
    s0: LintState,
    passes: Seq<Seq<CrawlView>>,
    n: nat,
)
    requires
        n >= 1,
    ensures
        after_passes(metas, fix, phase, first_phase, s0, passes, n).violations == if first_phase {
            after_passes(metas, fix, phase, first_phase, s0, passes, 1).violations
        } else {
            s0.violations
        },
    decreases n,
{
    let before = after_passes(metas, fix, phase, first_phase, s0, passes, (n - 1) as nat);
    assert(after_passes(metas, fix, phase, first_phase, s0, passes, n) == after_rules(
        metas,
        fix,
        phase,
        first_phase && n == 1,
        fresh(before),
        passes[n - 1],
        metas.len(),
    ));
    if n > 1 {
        lemma_later_passes_keep_violations(
            metas,
            fix,
            phase,
            first_phase,
            s0,
            passes,
            (n - 1) as nat,
        );
        lemma_later_pass_keeps_violations(
            metas,
            fix,
            phase,
            fresh(before),
            passes[n - 1],
            metas.len(),
        );
    } else if !first_phase {
        assert(before == s0);
        lemma_later_pass_keeps_violations(metas, fix, phase, fresh(s0), passes[0], metas.len());
    }
}

/// Only the first pass is seen: the violations at the end of a run are those
/// that the crawls of the first pass of the main phase handed back, in the
/// order of the rules. What a crawl reports in a later pass, of a tree that
/// fixes have changed, is in none of them.
pub proof fn lemma_only_first_pass_reported<R: Rule>(
    rules: Seq<R>,
    config: FluffConfig,
    fix: bool,
    tree: SegmentView,
    log: RunLog,
)
    requires
        run_admits(rules, config, fix, tree, log),
    ensures
        run_result(log, fix, tree).violations == reported(
            log.metas,
            fix,
            log.main[0],
            log.metas.len(),
        ),
{
    reveal(run_admits);
    let metas = log.metas;
    let s0 = initial(tree);
    lemma_later_passes_keep_violations(
        metas,
        fix,
        LintPhase::Main,
        true,
        s0,
        log.main,
        log.main.len(),
    );
    assert(after_passes(metas, fix, LintPhase::Main, true, s0, log.main, 0) == s0);
    lemma_first_pass_keeps_violations(metas, fix, fresh(s0), log.main[0], metas.len());
    assert(after_passes(metas, fix, LintPhase::Main, true, s0, log.main, 1).violations
        =~= reported(metas, fix, log.main[0], metas.len()));
    if fix {
        lemma_later_passes_keep_violations(
            metas,
            fix,
            LintPhase::Post,
            false,
            after_main(log, fix, tree),
            log.post,
            log.post.len(),
        );
    }
}

/// When fixing, a rule that proposes no fixes runs in no pass but the first
/// of the run.
pub proof fn lemma_fix_incompatible_rules_rest(meta: RuleMeta, phase: LintPhase)
    requires
        !meta.fix_compatible,
    ensures
        !runs(meta, true, phase, false),
{
}

/// What is held for a rule that does not run in a pass has no bearing on the
/// pass: two passes that differ only there end alike.
pub proof fn lemma_resting_rules_unread(
    metas: Seq<RuleMeta>,
    fix: bool,
    phase: LintPhase,
    first: bool,
    s0: LintState,
    a: Seq<CrawlView>,
    b: Seq<CrawlView>,
    k: nat,
)
    requires
        forall|i: int| 0 <= i < k && runs(metas[i], fix, phase, first) ==> a[i] == b[i],
    ensures
        after_rules(metas, fix, phase, first, s0, a, k) == after_rules(
            metas,
            fix,
            phase,
            first,
            s0,
            b,
            k,
        ),
    decreases k,
{
    if k > 0 {
        lemma_resting_rules_unread(metas, fix, phase, first, s0, a, b, (k - 1) as nat);
    }
}

/// Rewriting passes over a conflict: with an anchor whose fixes conflict, the
/// children of `t` are rewritten as if the plan held nothing for that anchor,
/// and no edit is applied at it.
pub proof fn lemma_conflict_passed_over_in_prefix(t: SegmentView, plan: Plan, a: u128, k: nat)
    requires
        plan.contains_key(a),
        resolve(plan[a]) is Conflict,
    ensures
        rewrite_prefix(t, plan, k).segments == rewrite_prefix(t, plan.remove(a), k).segments,
        rewrite_prefix(t, plan, k).applied == rewrite_prefix(t, plan.remove(a), k).applied,
        !rewrite_prefix(t, plan, k).applied.contains(a),
    decreases t, 0nat, k,
{
    if k == 0 || k > t.segments.len() {
    } else {
        lemma_conflict_passed_over_in_prefix(t, plan, a, (k - 1) as nat);
        lemma_conflict_passed_over_at_child(t.segments[k - 1], plan, a);
        let head = rewrite_prefix(t, plan, (k - 1) as nat).applied;
        let tail = rewrite_child(t.segments[k - 1], plan).applied;
        if (head + tail).contains(a) {
            let i = choose|i: int| 0 <= i < (head + tail).len() && (head + tail)[i] == a;
            if i < head.len() {
                assert(head[i] == a);
            } else {
                assert(tail[i - head.len()] == a);
            }
        }
    }
}

/// Rewriting passes over a conflict, at a child and below it.
pub proof fn lemma_conflict_passed_over_at_child(c: SegmentView, plan: Plan, a: u128)
    requires
        plan.contains_key(a),
        resolve(plan[a]) is Conflict,
    ensures
        rewrite_child(c, plan).segments == rewrite_child(c, plan.remove(a)).segments,
        rewrite_child(c, plan).applied == rewrite_child(c, plan.remove(a)).applied,
        !rewrite_child(c, plan).applied.contains(a),
    decreases c, 2nat, 0nat,
{
    lemma_conflict_passed_over(c, plan, a);
    let inner = rebuild(c, plan).applied;
    if c.uuid != a && plan.contains_key(c.uuid) {
        assert(plan.remove(a)[c.uuid] == plan[c.uuid]);
        let all = rewrite_child(c, plan).applied;
        if all.contains(a) {
            let i = choose|i: int| 0 <= i < all.len() && all[i] == a;
            if resolve(plan[c.uuid]) is Create {
                assert(all =~= seq![c.uuid] + inner);
                assert(inner[i - 1] == a);
            }
        }
    }
}

/// Rewriting passes over a conflict, below a node.
pub proof fn lemma_conflict_passed_over(t: SegmentView, plan: Plan, a: u128)
    requires
        plan.contains_key(a),
        resolve(plan[a]) is Conflict,
    ensures
        rebuild(t, plan).segments == rebuild(t, plan.remove(a)).segments,
        rebuild(t, plan).applied == rebuild(t, plan.remove(a)).applied,
        !rebuild(t, plan).applied.contains(a),
    decreases t, 1nat, 0nat,
{
    lemma_conflict_passed_over_in_prefix(t, plan, a, t.segments.len());
}

/// The fixes of `fs` that do not target the anchor `a`, in the order of `fs`.
pub open spec fn without_anchor(fs: Seq<FixView>, a: u128) -> Seq<FixView>
    decreases fs.len(),
{
    if fs.len() == 0 {
        Seq::empty()
    } else if fs.last().anchor == a {
        without_anchor(fs.drop_last(), a)
    } else {
        without_anchor(fs.drop_last(), a).push(fs.last())
    }
}

/// Leaving out the fixes of one anchor leaves the fixes of every other
/// anchor as they are.
pub proof fn lemma_without_anchor_keeps_others(fs: Seq<FixView>, a: u128, b: u128)
    requires
        a != b,
    ensures
        fixes_at(without_anchor(fs, a), b) == fixes_at(fs, b),
        targets(without_anchor(fs, a), b) == targets(fs, b),
        !targets(without_anchor(fs, a), a),
    decreases fs.len(),
{
    let kept = without_anchor(fs, a);
    if fs.len() > 0 {
        let rest = fs.drop_last();
        lemma_without_anchor_keeps_others(rest, a, b);
        let kept_rest = without_anchor(rest, a);
        if fs.last().anchor != a {
            assert(kept.drop_last() =~= kept_rest);
            assert(kept.last() == fs.last());
        }
        if targets(fs, b) {
            let i = choose|i: int| 0 <= i < fs.len() && (#[trigger] fs[i]).anchor == b;
            if i < fs.len() - 1 {
                assert(rest[i].anchor == b);
                let j = choose|j: int|
                    0 <= j < kept_rest.len() && (#[trigger] kept_rest[j]).anchor == b;
                assert(kept[j] == kept_rest[j]);
            } else {
                assert(kept[kept.len() - 1].anchor == b);
            }
        }
        if targets(kept, b) {
            let j = choose|j: int| 0 <= j < kept.len() && (#[trigger] kept[j]).anchor == b;
            if j < kept_rest.len() {
                assert(kept_rest[j].anchor == b);
                let i = choose|i: int| 0 <= i < rest.len() && (#[trigger] rest[i]).anchor == b;
                assert(fs[i].anchor == b);
            } else {
                assert(fs[fs.len() - 1].anchor == b);
            }
        }
        if targets(kept, a) {
            let j = choose|j: int| 0 <= j < kept.len() && (#[trigger] kept[j]).anchor == a;
            if j < kept_rest.len() {
                assert(kept_rest[j].anchor == a);
            }
        }
    }
}

/// The plan of a batch without the entry of one anchor is the plan of the
/// batch without the fixes of that anchor.
pub proof fn lemma_plan_without_anchor(fs: Seq<FixView>, a: u128)
    ensures
        plan_of(fs).remove(a) == plan_of(without_anchor(fs, a)),
{
    assert_maps_equal!(plan_of(fs).remove(a), plan_of(without_anchor(fs, a)), b => {
        if a != b {
            lemma_without_anchor_keeps_others(fs, a, b);
        } else {
            let other: u128 = if a == 0 {
                1u128
            } else {
                0u128
            };
            lemma_without_anchor_keeps_others(fs, a, other);
        }
    });
}

/// Conflicting fixes are not applied: where two fixes of one batch target the
/// same anchor, differ, and are not both creations, the tree is rewritten as
/// if the batch held no fix for that anchor, and no edit is applied at it.
pub proof fn lemma_conflicting_fixes_not_applied(t: SegmentView, fs: Seq<FixView>, i: int, j: int)
    requires
        0 <= i < fs.len(),
        0 <= j < fs.len(),
        fs[i].anchor == fs[j].anchor,
        fs[i] != fs[j],
        !(is_creation(fs[i].edit_type) && is_creation(fs[j].edit_type)),
    ensures
        rewritten_tree(t, plan_of(fs)) == rewritten_tree(
            t,
            plan_of(without_anchor(fs, fs[i].anchor)),
        ),
        !rebuild(t, plan_of(fs)).applied.contains(fs[i].anchor),
{
    lemma_incompatible_fixes_conflict(fs, i, j);
    lemma_conflict_passed_over(t, plan_of(fs), fs[i].anchor);
    lemma_plan_without_anchor(fs, fs[i].anchor);
}

/// Where the plan has no entry for any of the first `k` children of `t`, nor
/// for anything below them, rewriting leaves them as they are.
pub proof fn lemma_untargeted_prefix_unchanged(t: SegmentView, plan: Plan, k: nat)
    requires
        k <= t.segments.len(),
        forall|i: int|
            0 <= i < anchors_of_prefix(t, k).len() ==> !plan.contains_key(
                #[trigger] anchors_of_prefix(t, k)[i],
            ),
    ensures
        rewrite_prefix(t, plan, k).segments == t.segments.take(k as int),
        rewrite_prefix(t, plan, k).applied.len() == 0,
        rewrite_prefix(t, plan, k).conflicted.len() == 0,
    decreases t, 0nat, k,
{
    if k == 0 {
        assert(rewrite_prefix(t, plan, k).segments =~= t.segments.take(k as int));
    } else {
        let head = anchors_of_prefix(t, (k - 1) as nat);
        let c = t.segments[k - 1];
        let all = anchors_of_prefix(t, k);
        assert(all == head + anchors(c));
        assert forall|i: int| 0 <= i < head.len() implies !plan.contains_key(
            #[trigger] head[i],
        ) by {
            assert(all[i] == head[i]);
        }
        assert forall|i: int| 0 <= i < anchors(c).len() implies !plan.contains_key(
            #[trigger] anchors(c)[i],
        ) by {
            assert(all[head.len() + i] == anchors(c)[i]);
        }
        lemma_untargeted_prefix_unchanged(t, plan, (k - 1) as nat);
        lemma_untargeted_child_unchanged(c, plan);
        assert(rewrite_prefix(t, plan, k).segments =~= t.segments.take(k as int));
    }
}

/// Where the plan has no entry for the node `c` nor for anything below it,
/// rewriting leaves the node as it is.
pub proof fn lemma_untargeted_child_unchanged(c: SegmentView, plan: Plan)
    requires
        forall|i: int| 0 <= i < anchors(c).len() ==> !plan.contains_key(#[trigger] anchors(c)[i]),
    ensures
        rewrite_child(c, plan).segments == seq![c],
        rewrite_child(c, plan).applied.len() == 0,
        rewrite_child(c, plan).conflicted.len() == 0,
    decreases c, 2nat, 0nat,
{
    let below = anchors_of_prefix(c, c.segments.len());
    assert(anchors(c) == seq![c.uuid] + below);
    assert(anchors(c)[0] == c.uuid);
    assert forall|i: int| 0 <= i < below.len() implies !plan.contains_key(#[trigger] below[i]) by {
        assert(anchors(c)[i + 1] == below[i]);
    }
    lemma_untargeted_prefix_unchanged(c, plan, c.segments.len());
    assert(c.segments.take(c.segments.len() as int) =~= c.segments);
}

/// Segments that no fix targets are left alone: where the plan has no entry
/// for any node below the root, the tree is rewritten to itself, and no edit
/// is applied.
pub proof fn lemma_untargeted_tree_unchanged(t: SegmentView, plan: Plan)
    requires
        forall|i: int|
            1 <= i < anchors(t).len() ==> !plan.contains_key(#[trigger] anchors(t)[i]),
    ensures
        rewritten_tree(t, plan) == t,
        rebuild(t, plan).applied.len() == 0,
        rebuild(t, plan).conflicted.len() == 0,
{
    let below = anchors_of_prefix(t, t.segments.len());
    assert(anchors(t) == seq![t.uuid] + below);
    assert forall|i: int| 0 <= i < below.len() implies !plan.contains_key(#[trigger] below[i]) by {
        assert(anchors(t)[i + 1] == below[i]);
    }
    lemma_untargeted_prefix_unchanged(t, plan, t.segments.len());
    assert(t.segments.take(t.segments.len() as int) =~= t.segments);
}

} // verus!
