use lint_engine::common::{LintedFile, RenderedFile, SourceText};
use lint_engine::config::{Dialect, FluffConfig};
use lint_engine::errors::{SQLLexError, SQLLintError, SQLParseError, SQLTemplaterError, SqlError};
use lint_engine::fix::LintFix;
use lint_engine::formatter::{FormatterEvent, OutputStreamFormatter};
use lint_engine::linter::Linter;
use lint_engine::parser::{LexResult, Lexer, ParseResult, Parser};
use lint_engine::rules::{CrawlResult, LintPhase, Rule};
use lint_engine::segment::{ErasedSegment, Segment};
use lint_engine::templater::{RawTemplater, TemplatedFile, Templater, TemplaterResult};

/// Splits the rendered text at white space: one token for each word. A word
/// `?` is reported as a violation, and the text `!!` stops the lexer.
struct WordLexer;

impl Lexer for WordLexer {
    fn lex(templated_file: &TemplatedFile, _config: &FluffConfig) -> LexResult {
        let text = match &templated_file.templated_str {
            Some(text) => text.as_str(),
            None => "",
        };
        if text == "!!" {
            return Err(SQLLexError { description: "stopped".to_string(), line_no: 1, line_pos: 1 });
        }
        let mut tokens = Vec::new();
        let mut violations = Vec::new();
        let mut id: u128 = 100;
        for word in text.split_whitespace() {
            if word == "?" {
                violations.push(SQLLexError {
                    description: "unlexable".to_string(),
                    line_no: 1,
                    line_pos: 1,
                });
            }
            tokens.push(Segment::with_uuid(id, "word", word, Vec::new()));
            id += 1;
        }
        Ok((tokens, violations))
    }
}

/// Puts the tokens under one root. The single word `nothing` gives no tree,
/// and a first word `bad` is an error.
struct FlatParser;

impl Parser for FlatParser {
    fn parse(
        tokens: &Vec<ErasedSegment>,
        _config: &FluffConfig,
        _f_name: Option<String>,
        _parse_statistics: bool,
    ) -> ParseResult {
        if tokens[0].raw == "bad" {
            return Err(SQLParseError {
                description: "unparsable".to_string(),
                line_no: 1,
                line_pos: 1,
            });
        }
        if tokens.len() == 1 && tokens[0].raw == "nothing" {
            return Ok(None);
        }
        let children = tokens.iter().cloned().collect();
        Ok(Some(Segment::with_uuid(1, "file", "", children)))
    }
}

/// Reports every word that is written in upper case.
struct NoShouting;

impl Rule for NoShouting {
    fn lint_phase(&self) -> LintPhase {
        LintPhase::Main
    }

    fn is_fix_compatible(&self) -> bool {
        false
    }

    fn crawl(
        &self,
        _dialect: Dialect,
        _fix: bool,
        tree: &ErasedSegment,
        _config: &FluffConfig,
    ) -> CrawlResult {
        let mut violations = Vec::new();
        for child in &tree.segments {
            if !child.raw.is_empty() && child.raw.chars().all(|c| c.is_uppercase()) {
                violations.push(SQLLintError {
                    rule_code: "CP01".to_string(),
                    description: "upper case".to_string(),
                    anchor: child.uuid,
                    fixable: false,
                });
            }
        }
        Ok((violations, Vec::<LintFix>::new()))
    }
}

/// Renders nothing, and says why.
struct FailingTemplater;

impl Templater for FailingTemplater {
    fn process(&self, _in_str: &str, _f_name: &str, _config: &FluffConfig) -> TemplaterResult {
        Err(vec![SQLTemplaterError {
            description: "undefined variable".to_string(),
            line_no: 3,
            line_pos: 7,
        }])
    }
}

type TestLinter = Linter<RawTemplater, WordLexer, FlatParser, NoShouting>;

fn default_config() -> FluffConfig {
    FluffConfig::new(<_>::default(), None, None)
}

fn lint_codes(file: &LintedFile) -> Vec<String> {
    let mut codes = Vec::new();
    for v in &file.violations {
        codes.push(match v {
            SqlError::Templater(_) => "templater".to_string(),
            SqlError::Lex(_) => "lex".to_string(),
            SqlError::Parse(_) => "parse".to_string(),
            SqlError::Lint(e) => e.rule_code.clone(),
        });
    }
    codes
}

#[test]
fn test__linter__empty_file() {
    let linter = TestLinter::new(FluffConfig::new(<_>::default(), None, None), None, None);
    let parsed = linter.parse_string("".into(), None, None, None, None).unwrap();

    assert!(parsed.violations.is_empty());
}

#[test]
fn test_advanced_api_methods() {
    let sql = "
        WITH cte AS (
            SELECT * FROM tab_a
        )
        SELECT
            cte.col_a,
            tab_b.col_b
        FROM cte
        INNER JOIN tab_b;
        "
    .to_string();

    let linter = TestLinter::new(FluffConfig::new(<_>::default(), None, None), None, None);
    let _parsed = linter.parse_string(sql, None, None, None, None).unwrap();
}

#[test]
fn test_normalise_newlines() {
    let in_str = "SELECT\r\n foo\n FROM \r \n\r bar;";
    let out_str = "SELECT\n foo\n FROM \n \n\n bar;";

    assert_eq!(TestLinter::normalise_newlines(in_str), out_str);
}

#[test]
fn normalise_newlines_leaves_unix_text_alone() {
    assert_eq!(TestLinter::normalise_newlines("a\nb\n"), "a\nb\n");
    assert_eq!(TestLinter::normalise_newlines(""), "");
    assert_eq!(TestLinter::normalise_newlines("\r"), "\n");
    assert_eq!(TestLinter::normalise_newlines("\r\n\r\n"), "\n\n");
}

#[test]
fn empty_file_has_no_tree() {
    let linter = TestLinter::new(default_config(), None, None);
    let parsed = linter.parse_string("".into(), None, None, None, None).unwrap();
    assert_eq!(parsed.tree, None);
    assert_eq!(parsed.f_name, "<string>");
    assert!(parsed.templated_file.unwrap().is_templated());
}

#[test]
fn linting_an_empty_string_gives_no_violation() {
    let mut linter = TestLinter::new(default_config(), None, None);
    let file = linter
        .lint_string(Some("".into()), None, None, None, None, vec![NoShouting], false)
        .unwrap();
    assert!(file.violations.is_empty());
    assert!(file.faults.is_empty());
    assert_eq!(file.tree, None);
    let file = linter.lint_string(None, None, None, None, None, vec![NoShouting], true).unwrap();
    assert!(file.violations.is_empty());
    assert_eq!(file.tree, None);
}

#[test]
fn render_string_normalises_before_templating() {
    let linter = TestLinter::new(default_config(), None, None);
    let rendered = linter
        .render_string("a\r\nb\r".to_string(), "x.sql".to_string(), default_config(), None)
        .unwrap();
    let file = rendered.templated_file.unwrap();
    assert_eq!(file.source_str, "a\nb\n");
    assert_eq!(file.templated_str, Some("a\nb\n".to_string()));
    assert_eq!(file.f_name, "x.sql");
    assert_eq!(file.sliced_file.len(), 1);
    assert_eq!(file.sliced_file[0].source_start, 0);
    assert_eq!(file.sliced_file[0].source_stop, 4);
    assert_eq!(file.sliced_file[0].templated_stop, 4);
    assert_eq!(rendered.f_name, "x.sql");
    assert_eq!(rendered.encoding, "UTF-8");
    assert!(rendered.templater_violations.is_empty());
}

#[test]
fn render_string_keeps_a_named_encoding() {
    let linter = TestLinter::new(default_config(), None, None);
    let rendered = linter
        .render_string(
            "a".to_string(),
            "x.sql".to_string(),
            default_config(),
            Some("latin-1".to_string()),
        )
        .unwrap();
    assert_eq!(rendered.encoding, "latin-1");
}

#[test]
fn render_string_without_a_dialect_is_an_error() {
    let linter = TestLinter::new(default_config(), None, None);
    let mut config = default_config();
    config.dialect = None;
    let err = linter.render_string("a".to_string(), "x.sql".to_string(), config, None).unwrap_err();
    assert_eq!(err.value, "No dialect was specified.");
}

#[test]
fn render_string_with_an_unknown_dialect_is_an_error() {
    let linter = TestLinter::new(default_config(), None, None);
    let config =
        FluffConfig::new(vec![("dialect".to_string(), "klingon".to_string())], None, None);
    let err = linter.render_string("a".to_string(), "x.sql".to_string(), config, None).unwrap_err();
    assert_eq!(err.value, "The dialect that was specified is not known.");
}

#[test]
fn parse_string_fails_on_the_settings_given() {
    let linter = TestLinter::new(default_config(), None, None);
    let mut config = default_config();
    config.dialect = None;
    assert!(linter.parse_string("a".into(), None, Some(&config), None, None).is_err());
    assert!(linter.parse_string("a".into(), None, None, None, None).is_ok());
}

#[test]
fn parse_string_builds_the_tree() {
    let linter = TestLinter::new(default_config(), None, None);
    let parsed = linter
        .parse_string("select 1\r\nfrom t".into(), Some("q.sql".into()), None, None, None)
        .unwrap();
    assert!(parsed.violations.is_empty());
    assert_eq!(parsed.f_name, "q.sql");
    let tree = parsed.tree.unwrap();
    let words: Vec<&str> = tree.segments.iter().map(|s| s.raw.as_str()).collect();
    assert_eq!(words, vec!["select", "1", "from", "t"]);
}

#[test]
fn lexer_violations_are_carried() {
    let linter = TestLinter::new(default_config(), None, None);
    let parsed = linter.parse_string("a ? b".into(), None, None, None, None).unwrap();
    assert_eq!(parsed.violations.len(), 1);
    assert!(matches!(&parsed.violations[0], SqlError::Lex(e) if e.description == "unlexable"));
    assert!(parsed.tree.is_some());
}

#[test]
fn a_stopped_lexer_leaves_nothing_to_parse() {
    let linter = TestLinter::new(default_config(), None, None);
    let parsed = linter.parse_string("!!".into(), None, None, None, None).unwrap();
    assert_eq!(parsed.tree, None);
    assert_eq!(parsed.violations.len(), 1);
    assert!(matches!(&parsed.violations[0], SqlError::Lex(e) if e.description == "stopped"));
}

#[test]
fn a_parser_error_is_carried_in_place_of_a_tree() {
    let linter = TestLinter::new(default_config(), None, None);
    let parsed = linter.parse_string("bad sql".into(), None, None, None, None).unwrap();
    assert_eq!(parsed.tree, None);
    assert_eq!(parsed.violations.len(), 1);
    assert!(matches!(&parsed.violations[0], SqlError::Parse(e) if e.description == "unparsable"));
}

#[test]
fn a_parser_without_a_tree_gives_none() {
    let linter = TestLinter::new(default_config(), None, None);
    let parsed = linter.parse_string("nothing".into(), None, None, None, None).unwrap();
    assert_eq!(parsed.tree, None);
    assert!(parsed.violations.is_empty());
}

#[test]
fn templater_violations_skip_lexing_and_parsing() {
    let linter = Linter::<FailingTemplater, WordLexer, FlatParser, NoShouting>::new(
        default_config(),
        None,
        Some(FailingTemplater),
    );
    let parsed = linter.parse_string("select 1".into(), None, None, None, None).unwrap();
    assert_eq!(parsed.tree, None);
    assert_eq!(parsed.templated_file, None);
    assert_eq!(parsed.violations.len(), 1);
    assert!(matches!(
        &parsed.violations[0],
        SqlError::Templater(e) if e.description == "undefined variable" && e.line_no == 3
    ));
}

#[test]
fn parse_rendered_without_a_rendered_text_does_not_lex() {
    let rendered = RenderedFile {
        templated_file: Some(TemplatedFile {
            source_str: "select 1".to_string(),
            f_name: "x.sql".to_string(),
            templated_str: None,
            sliced_file: Vec::new(),
        }),
        templater_violations: Vec::new(),
        config: default_config(),
        f_name: "x.sql".to_string(),
        encoding: "UTF-8".to_string(),
    };
    let parsed = TestLinter::parse_rendered(rendered, false);
    assert_eq!(parsed.tree, None);
    assert!(parsed.violations.is_empty());
}

#[test]
fn lex_templated_file_without_tokens_gives_none() {
    let file = TemplatedFile {
        source_str: "  ".to_string(),
        f_name: "x.sql".to_string(),
        templated_str: Some("  ".to_string()),
        sliced_file: Vec::new(),
    };
    let (tokens, violations) = TestLinter::lex_templated_file(&file, &default_config());
    assert_eq!(tokens, None);
    assert!(violations.is_empty());
}

#[test]
fn parse_tokens_reports_the_parser_error() {
    let tokens = vec![Segment::with_uuid(7, "word", "bad", Vec::new())];
    let (tree, violations) = TestLinter::parse_tokens(&tokens, &default_config(), None, false);
    assert_eq!(tree, None);
    assert_eq!(violations.len(), 1);
    let tokens = vec![Segment::with_uuid(7, "word", "good", Vec::new())];
    let (tree, violations) = TestLinter::parse_tokens(&tokens, &default_config(), None, false);
    assert_eq!(tree.unwrap().segments.len(), 1);
    assert!(violations.is_empty());
}

#[test]
fn lint_string_reports_lint_violations_after_the_others() {
    let mut linter = TestLinter::new(default_config(), None, None);
    let file = linter
        .lint_string(
            Some("SELECT ? a FROM".into()),
            None,
            None,
            None,
            None,
            vec![NoShouting],
            false,
        )
        .unwrap();
    assert_eq!(lint_codes(&file), vec!["lex", "CP01", "CP01"]);
    assert_eq!(file.tree.unwrap().segments.len(), 4);
}

#[test]
fn lint_string_fails_without_a_dialect() {
    let mut config = default_config();
    config.dialect = None;
    let mut linter = TestLinter::new(config, None, None);
    let err = linter
        .lint_string(Some("a".into()), None, None, None, None, vec![NoShouting], false)
        .unwrap_err();
    assert_eq!(err.value, "No dialect was specified.");
    let own = default_config();
    assert!(linter
        .lint_string(Some("a".into()), None, None, Some(&own), None, vec![NoShouting], false)
        .is_ok());
}

#[test]
fn lint_parsed_without_a_tree_runs_no_rule() {
    let mut linter = TestLinter::new(default_config(), None, None);
    let parsed = linter.parse_string("bad SQL".into(), None, None, None, None).unwrap();
    let file = linter.lint_parsed(parsed, vec![NoShouting], false);
    assert_eq!(lint_codes(&file), vec!["parse"]);
    assert_eq!(file.tree, None);
}

#[test]
fn lint_string_wrapped_names_the_path_after_the_text() {
    let mut linter = TestLinter::new(default_config(), None, None);
    let result = linter.lint_string_wrapped("A b".into(), None, None, vec![NoShouting]).unwrap();
    assert_eq!(result.paths.len(), 1);
    assert_eq!(result.paths[0].path, "<string input>");
    assert_eq!(result.paths[0].files.len(), 1);
    assert_eq!(lint_codes(&result.paths[0].files[0]), vec!["CP01"]);
    let result = linter
        .lint_string_wrapped("a b".into(), Some("q.sql".into()), Some(true), vec![NoShouting])
        .unwrap();
    assert_eq!(result.paths[0].path, "q.sql");
    assert!(result.paths[0].files[0].violations.is_empty());
}

#[test]
fn the_formatter_is_told_of_each_linted_file() {
    let mut linter =
        TestLinter::new(default_config(), Some(OutputStreamFormatter::new()), None)
            .with_rules(vec![NoShouting]);
    let rendered = linter.render_file("one.sql".into(), "A B c".into()).unwrap();
    let file = linter.lint_rendered(rendered);
    assert_eq!(lint_codes(&file), vec!["CP01", "CP01"]);
    let results = linter.lint_paths(vec![
        SourceText { f_name: "two.sql".into(), text: "x".into() },
        SourceText { f_name: "three.sql".into(), text: "Y".into() },
    ]);
    assert_eq!(results.len(), 2);
    assert!(results[0].as_ref().unwrap().violations.is_empty());
    assert_eq!(lint_codes(results[1].as_ref().unwrap()), vec!["CP01"]);
    let events = &linter.formatter.as_ref().unwrap().dispatched;
    assert_eq!(
        events,
        &vec![
            FormatterEvent::FileViolations {
                f_name: "one.sql".into(),
                violations: 2,
                only_fixable: false,
                warn_unused_ignores: false,
            },
            FormatterEvent::FileViolations {
                f_name: "two.sql".into(),
                violations: 0,
                only_fixable: false,
                warn_unused_ignores: false,
            },
            FormatterEvent::FileViolations {
                f_name: "three.sql".into(),
                violations: 1,
                only_fixable: false,
                warn_unused_ignores: false,
            },
        ]
    );
}

#[test]
fn lint_paths_reports_the_error_of_each_file() {
    let mut config = default_config();
    config.dialect = None;
    let mut linter = TestLinter::new(config, Some(OutputStreamFormatter::new()), None);
    let results = linter.lint_paths(vec![
        SourceText { f_name: "a.sql".into(), text: "x".into() },
        SourceText { f_name: "b.sql".into(), text: "y".into() },
    ]);
    assert_eq!(results.len(), 2);
    assert!(results[0].is_err());
    assert!(results[1].is_err());
    assert!(linter.render_file("a.sql".into(), "x".into()).is_err());
    assert!(linter.formatter.unwrap().dispatched.is_empty());
}

#[test]
fn config_reads_the_last_dialect_setting() {
    let config = FluffConfig::new(
        vec![
            ("dialect".to_string(), "klingon".to_string()),
            ("other".to_string(), "x".to_string()),
            ("dialect".to_string(), "ansi".to_string()),
        ],
        Some("extra.cfg".to_string()),
        Some(2),
    );
    assert_eq!(config.dialect, Some("ansi".to_string()));
    assert_eq!(config.extra_config_path, Some("extra.cfg".to_string()));
    assert_eq!(config.tab_space_size, 2);
    assert!(config.verify_dialect_specified().is_none());
    let config = default_config();
    assert_eq!(config.dialect, Some("ansi".to_string()));
    assert_eq!(config.tab_space_size, 4);
    assert_eq!(config.sql_file_exts(), &vec![".sql".to_string()]);
    assert_eq!(config.copy(), config);
}

#[test]
fn dialect_selector_knows_ansi_only() {
    assert_eq!(lint_engine::config::dialect_selector("ansi"), Some(Dialect::Ansi));
    assert_eq!(lint_engine::config::dialect_selector("ANSI"), None);
    assert_eq!(lint_engine::config::dialect_selector(""), None);
}
