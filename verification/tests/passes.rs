use std::cell::{Cell, RefCell};

use lint_engine::config::{Dialect, FluffConfig};
use lint_engine::errors::{RuleFailure, RuleFault, SQLLintError};
use lint_engine::fix::LintFix;
use lint_engine::linter::Linter;
use lint_engine::parser::{LexResult, Lexer, ParseResult, Parser};
use lint_engine::rules::{rule_metas, should_crawl, CrawlResult, LintPhase, Rule, RuleMeta};
use lint_engine::run::{lint_tree, LintProgress};
use lint_engine::segment::{ErasedSegment, Segment};
use lint_engine::templater::{RawTemplater, TemplatedFile};

struct NoLexer;

impl Lexer for NoLexer {
    fn lex(_templated_file: &TemplatedFile, _config: &FluffConfig) -> LexResult {
        Ok((Vec::new(), Vec::new()))
    }
}

struct NoParser;

impl Parser for NoParser {
    fn parse(
        _tokens: &Vec<ErasedSegment>,
        _config: &FluffConfig,
        _f_name: Option<String>,
        _parse_statistics: bool,
    ) -> ParseResult {
        Ok(None)
    }
}

/// What a test rule does when it crawls.
enum Act {
    /// Reports one violation for each child of the root.
    Report,
    /// Reports each child whose text is `from`, and replaces it by one with
    /// the text `to`, under the same anchor.
    Rename { from: &'static str, to: &'static str },
    /// Puts one more word behind the last child, under an anchor of its own.
    Grow,
    /// Replaces and deletes the first child at once.
    Contradict,
    /// Puts a copy of the first child behind it, anchor and all.
    Duplicate,
    /// Fails.
    Fail,
}

struct TestRule {
    code: &'static str,
    phase: LintPhase,
    fix_compatible: bool,
    act: Act,
    calls: Cell<usize>,
    seen: RefCell<Vec<String>>,
}

fn rule(code: &'static str, phase: LintPhase, fix_compatible: bool, act: Act) -> TestRule {
    TestRule {
        code,
        phase,
        fix_compatible,
        act,
        calls: Cell::new(0),
        seen: RefCell::new(Vec::new()),
    }
}

fn text(tree: &ErasedSegment) -> String {
    let words: Vec<&str> = tree.segments.iter().map(|s| s.raw.as_str()).collect();
    words.join(" ")
}

impl TestRule {
    fn violation(&self, description: &str, anchor: u128) -> SQLLintError {
        SQLLintError {
            rule_code: self.code.to_string(),
            description: description.to_string(),
            anchor,
            fixable: self.fix_compatible,
        }
    }
}

impl Rule for TestRule {
    fn lint_phase(&self) -> LintPhase {
        self.phase
    }

    fn is_fix_compatible(&self) -> bool {
        self.fix_compatible
    }

    fn crawl(
        &self,
        dialect: Dialect,
        fix: bool,
        tree: &ErasedSegment,
        _config: &FluffConfig,
    ) -> CrawlResult {
        assert_eq!(dialect, Dialect::Ansi);
        self.calls.set(self.calls.get() + 1);
        self.seen.borrow_mut().push(text(tree));
        let mut violations = Vec::new();
        let mut fixes = Vec::new();
        match &self.act {
            Act::Report => {
                for child in &tree.segments {
                    violations.push(self.violation(&child.raw, child.uuid));
                }
            }
            Act::Rename { from, to } => {
                for child in &tree.segments {
                    if child.raw == *from {
                        violations.push(self.violation(&child.raw, child.uuid));
                        if fix {
                            fixes.push(LintFix::replace(
                                child.uuid,
                                vec![Segment::with_uuid(child.uuid, "word", to, Vec::new())],
                            ));
                        }
                    }
                }
            }
            Act::Grow => {
                let last = tree.segments.last().unwrap();
                violations.push(self.violation("short", last.uuid));
                fixes.push(LintFix::create_after(
                    last.uuid,
                    vec![Segment::with_uuid(last.uuid + 1, "word", "more", Vec::new())],
                ));
            }
            Act::Contradict => {
                let first = &tree.segments[0];
                fixes.push(LintFix::delete(first.uuid));
                fixes.push(LintFix::replace(first.uuid, vec![first.clone()]));
            }
            Act::Duplicate => {
                let first = &tree.segments[0];
                fixes.push(LintFix::create_after(first.uuid, vec![first.clone()]));
            }
            Act::Fail => {
                return Err(RuleFailure {
                    rule_code: self.code.to_string(),
                    description: "gave up".to_string(),
                });
            }
        }
        Ok((violations, fixes))
    }
}

type TestLinter = Linter<RawTemplater, NoLexer, NoParser, TestRule>;

fn linter() -> TestLinter {
    TestLinter::new(FluffConfig::new(<_>::default(), None, None), None, None)
}

fn tree(words: &[&str]) -> ErasedSegment {
    let mut children = Vec::new();
    let mut id: u128 = 10;
    for word in words {
        children.push(Segment::with_uuid(id, "word", word, Vec::new()));
        id += 10;
    }
    Segment::with_uuid(1, "file", "", children)
}

fn descriptions(violations: &[SQLLintError]) -> Vec<String> {
    violations.iter().map(|v| format!("{}:{}", v.rule_code, v.description)).collect()
}

/// Runs the rules on the tree and hands back the outcome with the number of
/// crawls of each rule.
fn run(
    rules: Vec<TestRule>,
    start: ErasedSegment,
    fix: bool,
) -> (ErasedSegment, Vec<SQLLintError>, Vec<RuleFault>, Vec<usize>, Vec<Vec<String>>) {
    let config = FluffConfig::new(<_>::default(), None, None);
    let progress = lint_tree(&rules, &config, start, fix);
    let calls = rules.iter().map(|r| r.calls.get()).collect();
    let seen = rules.iter().map(|r| r.seen.borrow().clone()).collect();
    (progress.tree, progress.violations, progress.faults, calls, seen)
}

#[test]
fn linting_runs_every_rule_once() {
    let rules = vec![
        rule("A", LintPhase::Main, false, Act::Report),
        rule("B", LintPhase::Post, true, Act::Rename { from: "x", to: "y" }),
        rule("C", LintPhase::Main, true, Act::Grow),
    ];
    let (after, violations, faults, calls, _) = run(rules, tree(&["x", "z"]), false);
    assert_eq!(after, tree(&["x", "z"]));
    assert_eq!(descriptions(&violations), vec!["A:x", "A:z", "B:x", "C:short"]);
    assert!(faults.is_empty());
    assert_eq!(calls, vec![1, 1, 1]);
}

#[test]
fn linting_twice_gives_the_same_violations() {
    let make = || {
        vec![
            rule("A", LintPhase::Main, false, Act::Report),
            rule("B", LintPhase::Main, true, Act::Rename { from: "x", to: "y" }),
        ]
    };
    let (after_one, first, _, _, _) = run(make(), tree(&["x", "z", "x"]), false);
    let (after_two, second, _, _, _) = run(make(), after_one.clone(), false);
    assert_eq!(first, second);
    assert_eq!(after_one, after_two);
    assert_eq!(descriptions(&first), vec!["A:x", "A:z", "A:x", "B:x", "B:x"]);
}

#[test]
fn the_main_phase_stops_after_ten_passes() {
    let rules = vec![rule("G", LintPhase::Main, true, Act::Grow)];
    let (after, violations, faults, calls, _) = run(rules, tree(&["a"]), true);
    assert_eq!(calls, vec![10]);
    assert_eq!(after.segments.len(), 11);
    assert_eq!(descriptions(&violations), vec!["G:short"]);
    assert!(faults.is_empty());
}

#[test]
fn the_later_phase_stops_after_two_passes() {
    let rules = vec![rule("G", LintPhase::Post, true, Act::Grow)];
    let (after, violations, _, calls, _) = run(rules, tree(&["a"]), true);
    assert_eq!(calls, vec![2]);
    assert_eq!(after.segments.len(), 3);
    // A rule of the later phase takes no part in the first pass of the run.
    assert!(violations.is_empty());
}

#[test]
fn both_phases_run_to_their_limits() {
    let rules = vec![
        rule("G", LintPhase::Main, true, Act::Grow),
        rule("H", LintPhase::Post, true, Act::Grow),
    ];
    let (after, _, _, calls, _) = run(rules, tree(&["a"]), true);
    assert_eq!(calls, vec![10, 2]);
    assert_eq!(after.segments.len(), 13);
}

#[test]
fn a_phase_stops_when_a_pass_changes_nothing() {
    let rules = vec![
        rule("R", LintPhase::Main, true, Act::Rename { from: "x", to: "y" }),
        rule("S", LintPhase::Main, true, Act::Rename { from: "y", to: "z" }),
    ];
    let (after, violations, faults, calls, seen) = run(rules, tree(&["x", "y", "w"]), true);
    assert_eq!(text(&after), "z z w");
    // The first pass changes the tree twice, the second not at all.
    assert_eq!(calls, vec![2, 2]);
    assert_eq!(seen[0], vec!["x y w", "z z w"]);
    assert_eq!(seen[1], vec!["y y w", "z z w"]);
    assert_eq!(descriptions(&violations), vec!["R:x", "S:y", "S:y"]);
    assert!(faults.is_empty());
}

#[test]
fn only_the_first_pass_is_reported() {
    let rules = vec![
        rule("A", LintPhase::Main, true, Act::Report),
        rule("R", LintPhase::Main, true, Act::Rename { from: "x", to: "y" }),
    ];
    let (after, violations, _, calls, seen) = run(rules, tree(&["x", "k"]), true);
    assert_eq!(text(&after), "y k");
    assert_eq!(calls, vec![2, 2]);
    // In the second pass the first rule saw the fixed tree, and what it
    // reported of it is not kept.
    assert_eq!(seen[0], vec!["x k", "y k"]);
    assert_eq!(descriptions(&violations), vec!["A:x", "A:k", "R:x"]);
}

#[test]
fn rules_without_fixes_rest_after_the_first_pass() {
    let rules = vec![
        rule("N", LintPhase::Main, false, Act::Report),
        rule("G", LintPhase::Main, true, Act::Grow),
        rule("P", LintPhase::Post, false, Act::Report),
        rule("Q", LintPhase::Post, true, Act::Grow),
    ];
    let (_, violations, _, calls, _) = run(rules, tree(&["a"]), true);
    // Ten passes of the main phase and two of the later one: the rule without
    // fixes crawled in the first pass of the run only, and the one of the
    // later phase never.
    assert_eq!(calls, vec![1, 10, 0, 2]);
    assert_eq!(descriptions(&violations), vec!["N:a", "G:short"]);
}

#[test]
fn should_crawl_says_when_a_rule_runs() {
    let main = RuleMeta { phase: LintPhase::Main, fix_compatible: true };
    let main_lint_only = RuleMeta { phase: LintPhase::Main, fix_compatible: false };
    let post = RuleMeta { phase: LintPhase::Post, fix_compatible: true };
    assert!(should_crawl(main, true, LintPhase::Main, true));
    assert!(should_crawl(main, true, LintPhase::Main, false));
    assert!(!should_crawl(main, true, LintPhase::Post, false));
    assert!(should_crawl(main_lint_only, true, LintPhase::Main, true));
    assert!(!should_crawl(main_lint_only, true, LintPhase::Main, false));
    assert!(!should_crawl(post, true, LintPhase::Main, true));
    assert!(should_crawl(post, true, LintPhase::Post, false));
    assert!(should_crawl(post, false, LintPhase::Main, true));
    assert!(should_crawl(main_lint_only, false, LintPhase::Post, false));
}

#[test]
fn rule_metas_asks_each_rule() {
    let rules = vec![
        rule("A", LintPhase::Main, false, Act::Report),
        rule("B", LintPhase::Post, true, Act::Grow),
    ];
    assert_eq!(
        rule_metas(&rules),
        vec![
            RuleMeta { phase: LintPhase::Main, fix_compatible: false },
            RuleMeta { phase: LintPhase::Post, fix_compatible: true },
        ]
    );
}

#[test]
fn conflicting_fixes_change_nothing_and_are_no_fault() {
    let rules = vec![rule("C", LintPhase::Main, true, Act::Contradict)];
    let (after, violations, faults, calls, _) = run(rules, tree(&["a", "b"]), true);
    assert_eq!(after, tree(&["a", "b"]));
    assert!(violations.is_empty());
    assert!(faults.is_empty());
    assert_eq!(calls, vec![10]);
}

#[test]
fn a_rewrite_that_repeats_an_anchor_is_set_aside() {
    let rules = vec![
        rule("D", LintPhase::Main, true, Act::Duplicate),
        rule("A", LintPhase::Main, false, Act::Report),
    ];
    let (after, violations, faults, calls, _) = run(rules, tree(&["a", "b"]), true);
    assert_eq!(after, tree(&["a", "b"]));
    assert_eq!(descriptions(&violations), vec!["A:a", "A:b"]);
    assert_eq!(faults, vec![RuleFault::RewriteRejected { rule: 0 }]);
    // The pass did not change the tree, so it was the only one.
    assert_eq!(calls, vec![1, 1]);
}

#[test]
fn a_failed_crawl_does_not_stop_the_pass() {
    let rules = vec![
        rule("A", LintPhase::Main, false, Act::Report),
        rule("F", LintPhase::Main, true, Act::Fail),
        rule("R", LintPhase::Main, true, Act::Rename { from: "x", to: "y" }),
    ];
    let (after, violations, faults, calls, _) = run(rules, tree(&["x"]), true);
    assert_eq!(text(&after), "y");
    assert_eq!(descriptions(&violations), vec!["A:x", "R:x"]);
    assert_eq!(calls, vec![1, 2, 2]);
    let failure = RuleFailure { rule_code: "F".to_string(), description: "gave up".to_string() };
    assert_eq!(
        faults,
        vec![
            RuleFault::CrawlFailed {
                rule: 1,
                failure: RuleFailure {
                    rule_code: "F".to_string(),
                    description: "gave up".to_string()
                }
            },
            RuleFault::CrawlFailed { rule: 1, failure },
        ]
    );
}

#[test]
fn without_rules_nothing_happens() {
    let (after, violations, faults, calls, _) = run(Vec::new(), tree(&["a"]), true);
    assert_eq!(after, tree(&["a"]));
    assert!(violations.is_empty());
    assert!(faults.is_empty());
    assert!(calls.is_empty());
}

#[test]
fn lint_fix_parsed_hands_back_tree_violations_and_faults() {
    let lntr = linter();
    let rules = vec![
        rule("R", LintPhase::Main, true, Act::Rename { from: "x", to: "y" }),
        rule("F", LintPhase::Post, true, Act::Fail),
    ];
    let (after, violations, faults) = lntr.lint_fix_parsed(tree(&["x", "x"]), rules, true);
    assert_eq!(text(&after), "y y");
    assert_eq!(descriptions(&violations), vec!["R:x", "R:x"]);
    assert_eq!(faults.len(), 1);
    let (after, violations, faults) = lntr.lint_fix_parsed(
        tree(&["x", "x"]),
        vec![rule("R", LintPhase::Main, true, Act::Rename { from: "x", to: "y" })],
        false,
    );
    assert_eq!(text(&after), "x x");
    assert_eq!(violations.len(), 2);
    assert!(faults.is_empty());
}

#[test]
fn absorb_takes_in_one_crawl() {
    let mut progress = LintProgress::new(tree(&["a"]));
    assert!(!progress.changed);
    let found = SQLLintError {
        rule_code: "X".to_string(),
        description: "d".to_string(),
        anchor: 10,
        fixable: true,
    };
    // Not the first pass, and no fixing: nothing is kept.
    progress.absorb(0, false, false, Ok((vec![found], vec![LintFix::delete(10)])));
    assert_eq!(progress.tree, tree(&["a"]));
    assert!(progress.violations.is_empty());
    assert!(!progress.changed);
    let found = SQLLintError {
        rule_code: "X".to_string(),
        description: "d".to_string(),
        anchor: 10,
        fixable: true,
    };
    // The first pass, with fixing: the violation is kept and the fix applied.
    progress.absorb(3, true, true, Ok((vec![found], vec![LintFix::delete(10)])));
    assert_eq!(progress.tree, tree(&[]));
    assert_eq!(descriptions(&progress.violations), vec!["X:d"]);
    assert!(progress.changed);
    assert!(progress.faults.is_empty());
    progress.absorb(
        4,
        true,
        false,
        Err(RuleFailure { rule_code: "Y".to_string(), description: "e".to_string() }),
    );
    assert_eq!(progress.faults.len(), 1);
    assert!(matches!(&progress.faults[0], RuleFault::CrawlFailed { rule: 4, .. }));
}
