//! What can go wrong with one file, as plain records.

use vstd::prelude::*;

verus! {

/// An error of the user's making, such as a configuration without a usable
/// dialect. It ends the work on the file at hand.
#[derive(Debug, PartialEq, Eq)]
pub struct SQLFluffUserError {
    pub value: String,
}

/// A problem that the templater reports.
#[derive(Debug, PartialEq, Eq)]
pub struct SQLTemplaterError {
    pub description: String,
    pub line_no: usize,
    pub line_pos: usize,
}

/// A problem that the lexer reports.
#[derive(Debug, PartialEq, Eq)]
pub struct SQLLexError {
    pub description: String,
    pub line_no: usize,
    pub line_pos: usize,
}

/// A problem that the parser reports.
#[derive(Debug, PartialEq, Eq)]
pub struct SQLParseError {
    pub description: String,
    pub line_no: usize,
    pub line_pos: usize,
}

/// A violation that a rule reports.
#[derive(Debug, PartialEq, Eq)]
pub struct SQLLintError {
    pub rule_code: String,
    pub description: String,
    pub anchor: u128,
    pub fixable: bool,
}

/// A rule that could not do its work on a tree.
#[derive(Debug, PartialEq, Eq)]
pub struct RuleFailure {
    pub rule_code: String,
    pub description: String,
}

/// A rule whose work the engine set aside in some pass. `rule` is the place of
/// the rule in the list of rules.
#[derive(Debug, PartialEq, Eq)]
pub enum RuleFault {
    /// The rule's crawl failed.
    CrawlFailed { rule: usize, failure: RuleFailure },
    /// The fixes of the rule gave a tree in which an anchor occurs twice. The
    /// tree from before the fixes was kept.
    RewriteRejected { rule: usize },
}

/// Any violation that a file can carry.
#[derive(Debug, PartialEq, Eq)]
pub enum SqlError {
    Templater(SQLTemplaterError),
    Lex(SQLLexError),
    Parse(SQLParseError),
    Lint(SQLLintError),
}

/// The mathematical value of a [`SQLLintError`].
pub struct LintErrorView {
    pub rule_code: Seq<char>,
    pub description: Seq<char>,
    pub anchor: u128,
    pub fixable: bool,
}

impl View for SQLLintError {
    type V = LintErrorView;

    open spec fn view(&self) -> LintErrorView {
        LintErrorView {
            rule_code: self.rule_code@,
            description: self.description@,
            anchor: self.anchor,
            fixable: self.fixable,
        }
    }
}

/// The mathematical value of a [`RuleFailure`].
pub struct RuleFailureView {
    pub rule_code: Seq<char>,
    pub description: Seq<char>,
}

impl View for RuleFailure {
    type V = RuleFailureView;

    open spec fn view(&self) -> RuleFailureView {
        RuleFailureView { rule_code: self.rule_code@, description: self.description@ }
    }
}

/// The mathematical value of a [`RuleFault`].
pub enum RuleFaultView {
    CrawlFailed { rule: usize, failure: RuleFailureView },
    RewriteRejected { rule: usize },
}

impl View for RuleFault {
    type V = RuleFaultView;

    open spec fn view(&self) -> RuleFaultView {
        match self {
            RuleFault::CrawlFailed { rule, failure } => RuleFaultView::CrawlFailed {
                rule: *rule,
                failure: failure@,
            },
            RuleFault::RewriteRejected { rule } => RuleFaultView::RewriteRejected { rule: *rule },
        }
    }
}

/// The values of a sequence of lint violations, in order.
pub open spec fn lint_error_views(s: Seq<SQLLintError>) -> Seq<LintErrorView> {
    Seq::new(s.len(), |i: int| s[i]@)
}

/// The values of a sequence of faults, in order.
pub open spec fn fault_views(s: Seq<RuleFault>) -> Seq<RuleFaultView> {
    Seq::new(s.len(), |i: int| s[i]@)
}

impl SQLFluffUserError {
    pub fn new(value: String) -> (e: SQLFluffUserError)
        ensures
            e.value == value,
    {
        SQLFluffUserError { value }
    }
}

/// The lint violations `s` as violations of a file, in order.
pub open spec fn lint_errors(s: Seq<SQLLintError>) -> Seq<SqlError> {
    Seq::new(s.len(), |i: int| SqlError::Lint(s[i]))
}

/// The lexer's violations `s` as violations of a file, in order.
pub open spec fn lex_errors(s: Seq<SQLLexError>) -> Seq<SqlError> {
    Seq::new(s.len(), |i: int| SqlError::Lex(s[i]))
}

/// The templater's violations `s` as violations of a file, in order.
pub open spec fn templater_errors(s: Seq<SQLTemplaterError>) -> Seq<SqlError> {
    Seq::new(s.len(), |i: int| SqlError::Templater(s[i]))
}

/// The parser's violations `s` as violations of a file, in order.
pub open spec fn parse_errors(s: Seq<SQLParseError>) -> Seq<SqlError> {
    Seq::new(s.len(), |i: int| SqlError::Parse(s[i]))
}

/// Moves lint violations to the end of a file's violations.
pub fn push_lint_errors(into: &mut Vec<SqlError>, from: Vec<SQLLintError>)
    ensures
        final(into)@ == old(into)@ + lint_errors(from@),
{
    let ghost start = into@;
    for e in it: from
        invariant
            it.seq() == from@,
            into@ == start + lint_errors(from@.take(it.index() as int)),
    {
        into.push(SqlError::Lint(e));
        proof {
            assert(into@ =~= start + lint_errors(from@.take(it.index() + 1)));
        }
    }
    proof {
        assert(from@.take(from@.len() as int) =~= from@);
    }
}

/// Moves the lexer's violations to the end of a file's violations.
pub fn push_lex_errors(into: &mut Vec<SqlError>, from: Vec<SQLLexError>)
    ensures
        final(into)@ == old(into)@ + lex_errors(from@),
{
    let ghost start = into@;
    for e in it: from
        invariant
            it.seq() == from@,
            into@ == start + lex_errors(from@.take(it.index() as int)),
    {
        into.push(SqlError::Lex(e));
        proof {
            assert(into@ =~= start + lex_errors(from@.take(it.index() + 1)));
        }
    }
    proof {
        assert(from@.take(from@.len() as int) =~= from@);
    }
}

/// Moves the templater's violations to the end of a file's violations.
pub fn push_templater_errors(into: &mut Vec<SqlError>, from: Vec<SQLTemplaterError>)
    ensures
        final(into)@ == old(into)@ + templater_errors(from@),
{
    let ghost start = into@;
    for e in it: from
        invariant
            it.seq() == from@,
            into@ == start + templater_errors(from@.take(it.index() as int)),
    {
        into.push(SqlError::Templater(e));
        proof {
            assert(into@ =~= start + templater_errors(from@.take(it.index() + 1)));
        }
    }
    proof {
        assert(from@.take(from@.len() as int) =~= from@);
    }
}

/// Moves the parser's violations to the end of a file's violations.
pub fn push_parse_errors(into: &mut Vec<SqlError>, from: Vec<SQLParseError>)
    ensures
        final(into)@ == old(into)@ + parse_errors(from@),
{
    let ghost start = into@;
    for e in it: from
        invariant
            it.seq() == from@,
            into@ == start + parse_errors(from@.take(it.index() as int)),
    {
        into.push(SqlError::Parse(e));
        proof {
            assert(into@ =~= start + parse_errors(from@.take(it.index() + 1)));
        }
    }
    proof {
        assert(from@.take(from@.len() as int) =~= from@);
    }
}

} // verus!
