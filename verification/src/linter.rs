//! The pipeline of one file: render, lex, parse, lint.

use core::marker::PhantomData;
use vstd::prelude::*;
use vstd::string::StringExecFns;
use crate::common::{
    rendered_from, LintedDir, LintedFile, LintingResult, ParsedString, RenderedFile, SourceText,
};
use crate::config::FluffConfig;
use crate::errors::{
    fault_views, lex_errors, lint_error_views, lint_errors, parse_errors, push_lex_errors,
    push_lint_errors, push_parse_errors, push_templater_errors, templater_errors, RuleFault,
    SQLFluffUserError, SQLLexError, SQLLintError, SQLParseError, SqlError,
};
use crate::formatter::{file_event, OutputStreamFormatter};
use crate::parser::{
    lexed, lexed_tokens, parsed, parsed_tree, LexResult, Lexer, ParseResult, Parser,
};
use crate::paths::{
    discovered, joined, lemma_joined_prefix, lists, missing_path_message, paths_expanded,
    paths_from_probe, PathProbe,
};
use crate::rules::Rule;
use crate::run::{lint_explained, lint_tree};
use crate::segment::ErasedSegment;
use crate::templater::{
    process_with, templater_admits, TemplatedFile, Templater, TemplaterResult,
};
use crate::text::{normalise_newlines, normalised, texts};

verus! {

/// A linter: settings, a templater, a lexer, a parser and a set of rules.
///
/// Without a templater of its own the linter leaves the text as it is.
pub struct Linter<T: Templater, L: Lexer, P: Parser, R: Rule> {
    pub config: FluffConfig,
    pub formatter: Option<OutputStreamFormatter>,
    pub templater: Option<T>,
    pub rules: Vec<R>,
    pub lexer: PhantomData<L>,
    pub parser: PhantomData<P>,
}

/// Whether `rendered` is what rendering the text `in_str` may give: the line
/// ends are made uniform, the templater is asked once, and its answer is
/// taken as it is.
pub open spec fn render_explained<T: Templater>(
    templater: Option<T>,
    in_str: Seq<char>,
    f_name: String,
    config: FluffConfig,
    encoding: Option<String>,
    rendered: RenderedFile,
) -> bool {
    exists|out: TemplaterResult| #[trigger]
        templater_admits(templater, normalised(in_str), f_name@, config, out) && rendered_from(
            out,
            config,
            f_name,
            encoding,
            rendered,
        )
}

/// Whether the lexer may give these tokens and violations for the file.
pub open spec fn lexes<L: Lexer>(
    templated_file: TemplatedFile,
    config: FluffConfig,
    tokens: Option<Vec<ErasedSegment>>,
    violations: Seq<SQLLexError>,
) -> bool {
    exists|out: LexResult| #[trigger]
        call_ensures(L::lex, (&templated_file, &config), out) && lexed(out, tokens, violations)
}

/// Whether the parser may give this tree and these violations for the
/// tokens.
pub open spec fn parses<P: Parser>(
    tokens: Vec<ErasedSegment>,
    config: FluffConfig,
    f_name: Option<String>,
    parse_statistics: bool,
    tree: Option<ErasedSegment>,
    violations: Seq<SQLParseError>,
) -> bool {
    exists|out: ParseResult| #[trigger]
        call_ensures(P::parse, (&tokens, &config, f_name, parse_statistics), out) && parsed(
            out,
            tree,
            violations,
        )
}

/// Whether the file is to be lexed: whether there is a rendered text.
pub open spec fn to_lex(rendered: RenderedFile) -> bool {
    rendered.templated_file matches Some(file) && file.templated_str is Some
}

/// Whether `result` is what parsing the rendered file may give.
///
/// The file is lexed if it has a rendered text, and parsed if the lexer gave
/// at least one token. The violations are those of the templater, then those
/// of the lexer, then those of the parser.
pub open spec fn parse_explained<L: Lexer, P: Parser>(
    rendered: RenderedFile,
    parse_statistics: bool,
    result: ParsedString,
) -> bool {
    &&& result.templated_file == rendered.templated_file
    &&& result.config == rendered.config
    &&& result.f_name == rendered.f_name
    &&& exists|
        tokens: Option<Vec<ErasedSegment>>,
        lex_violations: Seq<SQLLexError>,
        parse_violations: Seq<SQLParseError>,
    | #[trigger]
        stages_explained::<L, P>(
            rendered,
            parse_statistics,
            result,
            tokens,
            lex_violations,
            parse_violations,
        )
}

/// Whether the lexer and the parser may have given these tokens and
/// violations on the way from `rendered` to `result`.
pub open spec fn stages_explained<L: Lexer, P: Parser>(
    rendered: RenderedFile,
    parse_statistics: bool,
    result: ParsedString,
    tokens: Option<Vec<ErasedSegment>>,
    lex_violations: Seq<SQLLexError>,
    parse_violations: Seq<SQLParseError>,
) -> bool {
    &&& if to_lex(rendered) {
        lexes::<L>(rendered.templated_file->0, rendered.config, tokens, lex_violations)
    } else {
        tokens is None && lex_violations == Seq::<SQLLexError>::empty()
    }
    &&& match tokens {
        Some(found) => parses::<P>(
            found,
            rendered.config,
            Some(rendered.f_name),
            parse_statistics,
            result.tree,
            parse_violations,
        ),
        None => result.tree is None && parse_violations == Seq::<SQLParseError>::empty(),
    }
    &&& result.violations@ == templater_errors(rendered.templater_violations@) + lex_errors(
        lex_violations,
    ) + parse_errors(parse_violations)
}

/// Whether `file` is what linting the parsed file may give.
///
/// Without a tree no rule runs, and the file carries the violations met so
/// far. With a tree the rules run on it, and the violations of the first pass
/// come behind those met so far.
pub open spec fn file_explained<R: Rule>(
    rules: Seq<R>,
    config: FluffConfig,
    fix: bool,
    parsed: ParsedString,
    file: LintedFile,
) -> bool {
    &&& file.templated_file == parsed.templated_file
    &&& match parsed.tree {
        None => file.tree is None && file.violations == parsed.violations && file.faults@.len()
            == 0,
        Some(tree) => file.tree is Some && exists|violations: Seq<SQLLintError>| #[trigger]
            lint_explained(
                rules,
                config,
                fix,
                tree@,
                file.tree->0@,
                lint_error_views(violations),
                fault_views(file.faults@),
            ) && file.violations@ == parsed.violations@ + lint_errors(violations),
    }
}

/// Whether the formatter, if there is one, has recorded the violations of
/// `file` under the name `f_name`, and nothing else.
pub open spec fn dispatched(
    before: Option<OutputStreamFormatter>,
    after: Option<OutputStreamFormatter>,
    f_name: Seq<char>,
    file: LintedFile,
) -> bool {
    match before {
        None => after is None,
        Some(b) => after matches Some(a) && a.dispatched@.len() == b.dispatched@.len() + 1
            && a.dispatched@.drop_last() == b.dispatched@ && file_event(
            f_name,
            file,
            false,
            false,
            a.dispatched@.last(),
        ),
    }
}

/// Whether `file` is what parsing and linting the rendered file without
/// fixing may give, and the formatter has been told of it.
pub open spec fn rendered_linted<L: Lexer, P: Parser, R: Rule>(
    rules: Seq<R>,
    config: FluffConfig,
    rendered: RenderedFile,
    before: Option<OutputStreamFormatter>,
    after: Option<OutputStreamFormatter>,
    file: LintedFile,
) -> bool {
    exists|result: ParsedString| #[trigger]
        parse_explained::<L, P>(rendered, false, result) && file_explained(
            rules,
            config,
            false,
            result,
            file,
        ) && dispatched(before, after, result.f_name@, file)
}

/// Whether `result` is what rendering, parsing and linting one file with the
/// linter's own settings and rules may give: the error where the settings
/// name no dialect that exists, and else the linted file, of which the
/// formatter has been told.
pub open spec fn source_linted<T: Templater, L: Lexer, P: Parser, R: Rule>(
    templater: Option<T>,
    config: FluffConfig,
    rules: Seq<R>,
    source: SourceText,
    before: Option<OutputStreamFormatter>,
    after: Option<OutputStreamFormatter>,
    result: Result<LintedFile, SQLFluffUserError>,
) -> bool {
    match result {
        Err(e) => config.resolved_dialect() is None && e.value@ == config.dialect_complaint()
            && after == before,
        Ok(file) => config.resolved_dialect() is Some && exists|
            copy: FluffConfig,
            rendered: RenderedFile,
        |
            copy@ == config@ && #[trigger] render_explained(
                templater,
                source.text@,
                source.f_name,
                copy,
                None,
                rendered,
            ) && rendered_linted::<L, P, R>(rules, config, rendered, before, after, file),
    }
}

/// Whether `results` holds, for each of the files in order, what linting it
/// may give, where `formatters[i]` is the formatter before file `i` is
/// linted and `formatters[i + 1]` the formatter after it.
pub open spec fn sources_linted<T: Templater, L: Lexer, P: Parser, R: Rule>(
    templater: Option<T>,
    config: FluffConfig,
    rules: Seq<R>,
    sources: Seq<SourceText>,
    formatters: Seq<Option<OutputStreamFormatter>>,
    results: Seq<Result<LintedFile, SQLFluffUserError>>,
) -> bool {
    &&& results.len() == sources.len()
    &&& formatters.len() == sources.len() + 1
    &&& forall|i: int|
        0 <= i < sources.len() ==> source_linted::<T, L, P, R>(
            templater,
            config,
            rules,
            sources[i],
            formatters[i],
            formatters[i + 1],
            #[trigger] results[i],
        )
}

/// The name under which a text without a name is parsed.
pub open spec fn name_or(f_name: Option<String>, default: Seq<char>) -> Seq<char> {
    match f_name {
        Some(name) => name@,
        None => default,
    }
}

/// Whether `result` is what rendering and parsing the text `in_str` with the
/// settings `chosen` may give. The text is rendered with a copy of the
/// settings, under the encoding `utf-8` where none is named.
pub open spec fn string_parsed<T: Templater, L: Lexer, P: Parser>(
    templater: Option<T>,
    in_str: Seq<char>,
    f_name: Seq<char>,
    chosen: FluffConfig,
    encoding: Option<String>,
    parse_statistics: bool,
    result: ParsedString,
) -> bool {
    exists|config: FluffConfig, name: String, enc: String, rendered: RenderedFile|
        config@ == chosen@ && name@ == f_name && enc@ == name_or(encoding, "utf-8"@)
            && #[trigger] render_explained(templater, in_str, name, config, Some(enc), rendered)
            && parse_explained::<L, P>(rendered, parse_statistics, result)
}

/// Whether `file` is what rendering, parsing and linting the text `in_str`
/// may give.
pub open spec fn string_linted<T: Templater, L: Lexer, P: Parser, R: Rule>(
    templater: Option<T>,
    own: FluffConfig,
    in_str: Seq<char>,
    f_name: Seq<char>,
    chosen: FluffConfig,
    rules: Seq<R>,
    fix: bool,
    file: LintedFile,
) -> bool {
    exists|result: ParsedString| #[trigger]
        string_parsed::<T, L, P>(templater, in_str, f_name, chosen, None, false, result)
            && file_explained(rules, own, fix, result, file)
}

/// The settings to work with: those given, or else the linter's own.
pub open spec fn chosen_config(given: Option<&FluffConfig>, own: FluffConfig) -> FluffConfig {
    match given {
        Some(c) => *c,
        None => own,
    }
}

/// Lints a parsed file, and tells the formatter, if there is one.
fn lint_parsed_with<R: Rule>(
    config: &FluffConfig,
    formatter: &mut Option<OutputStreamFormatter>,
    parsed_string: ParsedString,
    rules: &Vec<R>,
    fix: bool,
) -> (file: LintedFile)
    ensures
        file_explained(rules@, *config, fix, parsed_string, file),
        dispatched(*old(formatter), *final(formatter), parsed_string.f_name@, file),
{
    let ParsedString { tree, violations, templated_file, config: _, f_name } = parsed_string;
    let linted_file = match tree {
        Some(tree) => {
            let ghost before = tree@;
            let ghost met = violations@;
            let progress = lint_tree(rules, config, tree, fix);
            let ghost found = progress.violations@;
            let mut violations = violations;
            push_lint_errors(&mut violations, progress.violations);
            let file = LintedFile {
                tree: Some(progress.tree),
                templated_file,
                violations,
                faults: progress.faults,
            };
            proof {
                assert(lint_explained(
                    rules@,
                    *config,
                    fix,
                    before,
                    file.tree->0@,
                    lint_error_views(found),
                    fault_views(file.faults@),
                ));
                assert(file.violations@ == met + lint_errors(found));
            }
            file
        },
        None => LintedFile { tree: None, templated_file, violations, faults: Vec::new() },
    };
    match formatter {
        Some(f) => {
            f.dispatch_file_violations(f_name.as_str(), &linted_file, false, false);
        },
        None => {},
    }
    linted_file
}

impl<T: Templater, L: Lexer, P: Parser, R: Rule> Linter<T, L, P, R> {
    /// A linter with the given settings and no rules yet. Without a
    /// templater the text is left as it is.
    pub fn new(
        config: FluffConfig,
        formatter: Option<OutputStreamFormatter>,
        templater: Option<T>,
    ) -> (linter: Self)
        ensures
            linter.config == config,
            linter.formatter == formatter,
            linter.templater == templater,
            linter.rules@.len() == 0,
    {
        Linter {
            config,
            formatter,
            templater,
            rules: Vec::new(),
            lexer: PhantomData,
            parser: PhantomData,
        }
    }

    /// This linter with the given rules.
    pub fn with_rules(self, rules: Vec<R>) -> (linter: Self)
        ensures
            linter == (Linter { rules, ..self }),
    {
        Linter { rules, ..self }
    }

    /// Makes the line ends of a text uniform.
    pub fn normalise_newlines(string: &str) -> (out: String)
        ensures
            out@ == normalised(string@),
    {
        normalise_newlines(string)
    }

    /// Renders a text.
    ///
    /// Fails, before the templater is asked, where the settings name no
    /// dialect that exists.
    pub fn render_string(
        &self,
        in_str: String,
        f_name: String,
        config: FluffConfig,
        encoding: Option<String>,
    ) -> (r: Result<RenderedFile, SQLFluffUserError>)
        ensures
            r is Ok <==> config.resolved_dialect() is Some,
            r matches Err(e) ==> e.value@ == config.dialect_complaint(),
            r matches Ok(rendered) ==> render_explained(
                self.templater,
                in_str@,
                f_name,
                config,
                encoding,
                rendered,
            ),
    {
        let in_str = normalise_newlines(in_str.as_str());
        if let Some(error) = config.verify_dialect_specified() {
            return Err(error);
        }
        let out = process_with(&self.templater, in_str.as_str(), f_name.as_str(), &config);
        Ok(RenderedFile::from_templater(out, config, f_name, encoding))
    }

    /// Lexes a rendered file.
    pub fn lex_templated_file(templated_file: &TemplatedFile, config: &FluffConfig) -> (r: (
        Option<Vec<ErasedSegment>>,
        Vec<SQLLexError>,
    ))
        ensures
            lexes::<L>(*templated_file, *config, r.0, r.1@),
    {
        let out = L::lex(templated_file, config);
        lexed_tokens(out)
    }

    /// Parses a sequence of tokens.
    pub fn parse_tokens(
        tokens: &Vec<ErasedSegment>,
        config: &FluffConfig,
        f_name: Option<String>,
        parse_statistics: bool,
    ) -> (r: (Option<ErasedSegment>, Vec<SQLParseError>))
        ensures
            parses::<P>(*tokens, *config, f_name, parse_statistics, r.0, r.1@),
    {
        let out = P::parse(tokens, config, f_name, parse_statistics);
        parsed_tree(out)
    }

    /// Lexes and parses a rendered file.
    pub fn parse_rendered(rendered: RenderedFile, parse_statistics: bool) -> (result: ParsedString)
        ensures
            parse_explained::<L, P>(rendered, parse_statistics, result),
    {
        let RenderedFile { templated_file, templater_violations, config, f_name, encoding } =
            rendered;
        let mut violations: Vec<SqlError> = Vec::new();
        push_templater_errors(&mut violations, templater_violations);
        let mut tokens: Option<Vec<ErasedSegment>> = None;
        let ghost mut lex_violations: Seq<SQLLexError> = Seq::empty();
        match &templated_file {
            Some(file) => {
                if file.is_templated() {
                    let (found, met) = Self::lex_templated_file(file, &config);
                    proof {
                        lex_violations = met@;
                    }
                    tokens = found;
                    push_lex_errors(&mut violations, met);
                }
            },
            None => {},
        }
        let ghost mid = violations@;
        proof {
            assert(mid =~= templater_errors(templater_violations@) + lex_errors(lex_violations));
        }
        let ghost mut parse_violations: Seq<SQLParseError> = Seq::empty();
        let tree = match &tokens {
            Some(found) => {
                let (tree, met) = Self::parse_tokens(
                    found,
                    &config,
                    Some(f_name.clone()),
                    parse_statistics,
                );
                proof {
                    parse_violations = met@;
                }
                push_parse_errors(&mut violations, met);
                tree
            },
            None => None,
        };
        let result = ParsedString { tree, violations, templated_file, config, f_name };
        proof {
            assert(result.violations@ =~= mid + parse_errors(parse_violations));
            assert(stages_explained::<L, P>(
                rendered,
                parse_statistics,
                result,
                tokens,
                lex_violations,
                parse_violations,
            ));
        }
        result
    }
    /// Renders and parses a text.
    ///
    /// The settings are those given, or else the linter's own. Fails where
    /// they name no dialect that exists.
    pub fn parse_string(
        &self,
        in_str: String,
        f_name: Option<String>,
        config: Option<&FluffConfig>,
        encoding: Option<String>,
        parse_statistics: Option<bool>,
    ) -> (r: Result<ParsedString, SQLFluffUserError>)
        ensures
            r is Ok <==> chosen_config(config, self.config).resolved_dialect() is Some,
            r matches Err(e) ==> e.value@ == chosen_config(config, self.config).dialect_complaint(),
            r matches Ok(result) ==> string_parsed::<T, L, P>(
                self.templater,
                in_str@,
                name_or(f_name, "<string>"@),
                chosen_config(config, self.config),
                encoding,
                parse_statistics == Some(true),
                result,
            ),
    {
        let f_name = match f_name {
            Some(name) => name,
            None => String::from_str("<string>"),
        };
        let encoding = match encoding {
            Some(e) => e,
            None => String::from_str("utf-8"),
        };
        let parse_statistics = match parse_statistics {
            Some(b) => b,
            None => false,
        };
        let config = match config {
            Some(c) => c.copy(),
            None => self.config.copy(),
        };
        let ghost name = f_name;
        let ghost enc = encoding;
        let rendered = match self.render_string(in_str, f_name, config, Some(encoding)) {
            Ok(rendered) => rendered,
            Err(e) => {
                return Err(e);
            },
        };
        let result = Self::parse_rendered(rendered, parse_statistics);
        proof {
            assert(render_explained(self.templater, in_str@, name, config, Some(enc), rendered));
        }
        Ok(result)
    }

    /// Lints a parsed file with the given rules.
    pub fn lint_parsed(&mut self, parsed_string: ParsedString, rules: Vec<R>, fix: bool) -> (file:
        LintedFile)
        ensures
            file_explained(rules@, old(self).config, fix, parsed_string, file),
            dispatched(old(self).formatter, final(self).formatter, parsed_string.f_name@, file),
            final(self).config == old(self).config,
            final(self).templater == old(self).templater,
            final(self).rules == old(self).rules,
    {
        lint_parsed_with(&self.config, &mut self.formatter, parsed_string, &rules, fix)
    }

    /// Lints a rendered file with the linter's own rules, without fixing.
    pub fn lint_rendered(&mut self, rendered: RenderedFile) -> (file: LintedFile)
        ensures
            rendered_linted::<L, P, R>(
                old(self).rules@,
                old(self).config,
                rendered,
                old(self).formatter,
                final(self).formatter,
                file,
            ),
            final(self).config == old(self).config,
            final(self).templater == old(self).templater,
            final(self).rules == old(self).rules,
    {
        let parsed_string = Self::parse_rendered(rendered, false);
        lint_parsed_with(&self.config, &mut self.formatter, parsed_string, &self.rules, false)
    }

    /// Runs the rules on a tree, and fixes it where `fix` asks for it.
    ///
    /// Returns the final tree, the violations of the first pass, and the
    /// rules whose work was set aside.
    pub fn lint_fix_parsed(&self, tree: ErasedSegment, rules: Vec<R>, fix: bool) -> (r: (
        ErasedSegment,
        Vec<SQLLintError>,
        Vec<RuleFault>,
    ))
        ensures
            lint_explained(
                rules@,
                self.config,
                fix,
                tree@,
                r.0@,
                lint_error_views(r.1@),
                fault_views(r.2@),
            ),
    {
        let progress = lint_tree(&rules, &self.config, tree, fix);
        (progress.tree, progress.violations, progress.faults)
    }

    /// Renders, parses and lints a text.
    ///
    /// The settings are those given, or else the linter's own. Fails where
    /// they name no dialect that exists.
    pub fn lint_string(
        &mut self,
        in_str: Option<String>,
        f_name: Option<String>,
        _fix: Option<bool>,
        config: Option<&FluffConfig>,
        _encoding: Option<String>,
        rules: Vec<R>,
        fix: bool,
    ) -> (r: Result<LintedFile, SQLFluffUserError>)
        ensures
            r is Ok <==> chosen_config(config, old(self).config).resolved_dialect() is Some,
            r matches Err(e) ==> e.value@ == chosen_config(
                config,
                old(self).config,
            ).dialect_complaint(),
            r matches Ok(file) ==> string_linted::<T, L, P, R>(
                old(self).templater,
                old(self).config,
                name_or(in_str, Seq::empty()),
                name_or(f_name, "<string>"@),
                chosen_config(config, old(self).config),
                rules@,
                fix,
                file,
            ) && dispatched(
                old(self).formatter,
                final(self).formatter,
                name_or(f_name, "<string>"@),
                file,
            ),
            r is Err ==> final(self).formatter == old(self).formatter,
            final(self).config == old(self).config,
            final(self).templater == old(self).templater,
            final(self).rules == old(self).rules,
    {
        let in_str = match in_str {
            Some(s) => s,
            None => String::new(),
        };
        let parsed = self.parse_string(in_str, f_name, config, None, None);
        match parsed {
            Ok(parsed) => Ok(
                lint_parsed_with(&self.config, &mut self.formatter, parsed, &rules, fix),
            ),
            Err(e) => Err(e),
        }
    }

    /// Lints a text and wraps the outcome as the result of a run on one path,
    /// named after the text.
    pub fn lint_string_wrapped(
        &mut self,
        sql: String,
        f_name: Option<String>,
        fix: Option<bool>,
        rules: Vec<R>,
    ) -> (r: Result<LintingResult, SQLFluffUserError>)
        ensures
            r is Ok <==> old(self).config.resolved_dialect() is Some,
            r matches Err(e) ==> e.value@ == old(self).config.dialect_complaint(),
            r is Err ==> final(self).formatter == old(self).formatter,
            r matches Ok(result) ==> {
                &&& result.paths@.len() == 1
                &&& result.paths@[0].path@ == name_or(f_name, "<string input>"@)
                &&& result.paths@[0].files@.len() == 1
                &&& string_linted::<T, L, P, R>(
                    old(self).templater,
                    old(self).config,
                    sql@,
                    name_or(f_name, "<string input>"@),
                    old(self).config,
                    rules@,
                    fix == Some(true),
                    result.paths@[0].files@[0],
                )
                &&& dispatched(
                    old(self).formatter,
                    final(self).formatter,
                    name_or(f_name, "<string input>"@),
                    result.paths@[0].files@[0],
                )
            },
            final(self).config == old(self).config,
            final(self).templater == old(self).templater,
            final(self).rules == old(self).rules,
    {
        let f_name = match f_name {
            Some(name) => name,
            None => String::from_str("<string input>"),
        };
        let fixing = match fix {
            Some(b) => b,
            None => false,
        };
        let mut linted_path = LintedDir::new(f_name.clone());
        let file = match self.lint_string(Some(sql), Some(f_name), fix, None, None, rules, fixing) {
            Ok(file) => file,
            Err(e) => {
                return Err(e);
            },
        };
        linted_path.add(file);
        let mut result = LintingResult::new();
        result.add(linted_path);
        Ok(result)
    }

    /// Renders the text of a file with the linter's own settings.
    pub fn render_file(&self, fname: String, in_str: String) -> (r: Result<
        RenderedFile,
        SQLFluffUserError,
    >)
        ensures
            r is Ok <==> self.config.resolved_dialect() is Some,
            r matches Err(e) ==> e.value@ == self.config.dialect_complaint(),
            r matches Ok(rendered) ==> exists|config: FluffConfig|
                config@ == self.config@ && #[trigger] render_explained(
                    self.templater,
                    in_str@,
                    fname,
                    config,
                    None,
                    rendered,
                ),
    {
        let config = self.config.copy();
        let r = self.render_string(in_str, fname, config, None);
        proof {
            if r is Ok {
                assert(render_explained(self.templater, in_str@, fname, config, None, r->Ok_0));
            }
        }
        r
    }
    /// The files to lint at `path`, given what the file system shows there:
    /// each path once, in the order of strings.
    ///
    /// A path that does not exist is an error, unless
    /// `ignore_non_existent_files` asks to pass over it: then it gives no
    /// file.
    pub fn paths_from_path(
        &self,
        path: String,
        ignore_file_name: Option<String>,
        ignore_non_existent_files: Option<bool>,
        ignore_files: Option<bool>,
        found: PathProbe,
    ) -> (r: Result<Vec<String>, SQLFluffUserError>)
        ensures
            r is Err <==> found is Missing && ignore_non_existent_files != Some(true),
            r matches Err(e) ==> e.value@ == missing_path_message() + path@,
            r matches Ok(paths) ==> lists(
                texts(paths@),
                discovered(
                    found,
                    texts(self.config.sql_file_exts@),
                    ignore_files != Some(false),
                    name_or(ignore_file_name, ".sqlfluffignore"@),
                ),
            ),
    {
        paths_from_probe(
            path.as_str(),
            found,
            self.config.sql_file_exts(),
            ignore_file_name,
            ignore_non_existent_files,
            ignore_files,
        )
    }
    /// The files to lint at each of the paths, one path after the other,
    /// given what the file system shows at each.
    ///
    /// Fails at the first path that does not exist.
    pub fn expand_paths(&self, probes: Vec<(String, PathProbe)>) -> (r: Result<
        Vec<String>,
        SQLFluffUserError,
    >)
        ensures
            r is Err <==> exists|i: int|
                0 <= i < probes@.len() && (#[trigger] probes@[i]).1 is Missing,
            r matches Ok(paths) ==> exists|parts: Seq<Seq<Seq<char>>>| #[trigger]
                paths_expanded(probes@, texts(self.config.sql_file_exts@), parts) && texts(paths@)
                    == joined(parts, parts.len()),
    {
        let ghost exts = texts(self.config.sql_file_exts@);
        let ghost mut parts: Seq<Seq<Seq<char>>> = Seq::empty();
        let mut expanded: Vec<String> = Vec::new();
        proof {
            assert(texts(expanded@) =~= joined(parts, 0));
        }
        for probe in it: probes
            invariant
                it.seq() == probes@,
                exts == texts(self.config.sql_file_exts@),
                parts.len() == it.index(),
                forall|i: int| 0 <= i < it.index() ==> !((#[trigger] probes@[i]).1 is Missing),
                forall|i: int|
                    0 <= i < it.index() ==> lists(
                        #[trigger] parts[i],
                        discovered(probes@[i].1, exts, true, ".sqlfluffignore"@),
                    ),
                texts(expanded@) == joined(parts, parts.len()),
        {
            let ghost held = parts;
            let ghost before = expanded@;
            let (path, found) = probe;
            let mut paths = match self.paths_from_path(path, None, None, None, found) {
                Ok(paths) => paths,
                Err(e) => {
                    proof {
                        assert(probes@[it.index() as int].1 is Missing);
                    }
                    return Err(e);
                },
            };
            let ghost part = texts(paths@);
            let ghost added = paths@;
            expanded.append(&mut paths);
            proof {
                parts = held.push(part);
                assert(texts(expanded@) =~= texts(before) + texts(added));
                lemma_joined_prefix(parts, held, held.len());
                assert(joined(parts, parts.len()) == joined(parts, held.len()) + part);
            }
        }
        proof {
            assert(paths_expanded(probes@, exts, parts));
        }
        Ok(expanded)
    }

    /// Renders, parses and lints each of the files with the linter's own
    /// settings and rules, without fixing, one file after the other. The
    /// error of one file does not keep the others from being linted.
    pub fn lint_paths(&mut self, sources: Vec<SourceText>) -> (results: Vec<
        Result<LintedFile, SQLFluffUserError>,
    >)
        ensures
            exists|formatters: Seq<Option<OutputStreamFormatter>>| #[trigger]
                sources_linted::<T, L, P, R>(
                    old(self).templater,
                    old(self).config,
                    old(self).rules@,
                    sources@,
                    formatters,
                    results@,
                ) && formatters[0] == old(self).formatter && formatters.last()
                    == final(self).formatter,
            final(self).config == old(self).config,
            final(self).templater == old(self).templater,
            final(self).rules == old(self).rules,
    {
        let ghost start = *self;
        let ghost mut formatters: Seq<Option<OutputStreamFormatter>> = seq![self.formatter];
        let mut results: Vec<Result<LintedFile, SQLFluffUserError>> = Vec::new();
        for source in it: sources
            invariant
                it.seq() == sources@,
                self.config == start.config,
                self.templater == start.templater,
                self.rules == start.rules,
                results@.len() == it.index(),
                formatters.len() == it.index() + 1,
                formatters[0] == start.formatter,
                formatters.last() == self.formatter,
                forall|i: int|
                    0 <= i < it.index() ==> source_linted::<T, L, P, R>(
                        start.templater,
                        start.config,
                        start.rules@,
                        sources@[i],
                        formatters[i],
                        formatters[i + 1],
                        #[trigger] results@[i],
                    ),
        {
            let ghost held = formatters;
            let ghost done = results@;
            let ghost this = source;
            let SourceText { f_name, text } = source;
            let config = self.config.copy();
            let result = match self.render_string(text, f_name, config, None) {
                Ok(rendered) => {
                    let file = self.lint_rendered(rendered);
                    proof {
                        assert(render_explained(
                            start.templater,
                            this.text@,
                            this.f_name,
                            config,
                            None,
                            rendered,
                        ));
                    }
                    Ok(file)
                },
                Err(e) => Err(e),
            };
            proof {
                formatters = held.push(self.formatter);
                assert(source_linted::<T, L, P, R>(
                    start.templater,
                    start.config,
                    start.rules@,
                    this,
                    held.last(),
                    self.formatter,
                    result,
                ));
            }
            results.push(result);
            proof {
                assert forall|i: int| 0 <= i < it.index() + 1 implies source_linted::<T, L, P, R>(
                    start.templater,
                    start.config,
                    start.rules@,
                    sources@[i],
                    formatters[i],
                    formatters[i + 1],
                    #[trigger] results@[i],
                ) by {
                    if i < it.index() {
                        assert(results@[i] == done[i]);
                        assert(formatters[i] == held[i]);
                        assert(formatters[i + 1] == held[i + 1]);
                    }
                }
            }
        }
        proof {
            assert(sources_linted::<T, L, P, R>(
                start.templater,
                start.config,
                start.rules@,
                sources@,
                formatters,
                results@,
            ));
        }
        results
    }
}

} // verus!
