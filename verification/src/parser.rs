//! What the engine asks of a lexer and of a parser.

use vstd::prelude::*;
use crate::config::FluffConfig;
use crate::errors::{SQLLexError, SQLParseError};
use crate::segment::ErasedSegment;
use crate::templater::TemplatedFile;

verus! {

/// What a lexer hands back: the tokens with the violations met on the way, or
/// the error that stopped it.
pub type LexResult = Result<(Vec<ErasedSegment>, Vec<SQLLexError>), SQLLexError>;

/// What a parser hands back: the tree, if the tokens give one, or the error
/// that stopped it.
pub type ParseResult = Result<Option<ErasedSegment>, SQLParseError>;

/// A lexer: from a rendered file to a sequence of tokens.
pub trait Lexer {
    fn lex(templated_file: &TemplatedFile, config: &FluffConfig) -> LexResult;
}

/// A parser: from a sequence of tokens to a tree.
pub trait Parser {
    fn parse(
        tokens: &Vec<ErasedSegment>,
        config: &FluffConfig,
        f_name: Option<String>,
        parse_statistics: bool,
    ) -> ParseResult;
}

/// The tokens to parse and the violations to report, given what the lexer
/// handed back. No tokens at all count as nothing to parse, and the error
/// that stopped the lexer is reported as its one violation.
pub open spec fn lexed(
    out: LexResult,
    tokens: Option<Vec<ErasedSegment>>,
    violations: Seq<SQLLexError>,
) -> bool {
    match out {
        Ok((found, met)) => {
            &&& violations == met@
            &&& tokens == if found@.len() == 0 {
                None
            } else {
                Some(found)
            }
        },
        Err(e) => tokens is None && violations == seq![e],
    }
}

/// Sorts out what the lexer handed back.
pub fn lexed_tokens(out: LexResult) -> (r: (Option<Vec<ErasedSegment>>, Vec<SQLLexError>))
    ensures
        lexed(out, r.0, r.1@),
{
    match out {
        Ok((found, met)) => {
            if found.len() == 0 {
                (None, met)
            } else {
                (Some(found), met)
            }
        },
        Err(e) => {
            let mut violations: Vec<SQLLexError> = Vec::new();
            violations.push(e);
            (None, violations)
        },
    }
}

/// The tree and the violations to report, given what the parser handed back.
pub open spec fn parsed(
    out: ParseResult,
    tree: Option<ErasedSegment>,
    violations: Seq<SQLParseError>,
) -> bool {
    match out {
        Ok(found) => tree == found && violations == Seq::<SQLParseError>::empty(),
        Err(e) => tree is None && violations == seq![e],
    }
}

/// Sorts out what the parser handed back.
pub fn parsed_tree(out: ParseResult) -> (r: (Option<ErasedSegment>, Vec<SQLParseError>))
    ensures
        parsed(out, r.0, r.1@),
{
    let mut violations: Vec<SQLParseError> = Vec::new();
    match out {
        Ok(found) => (found, violations),
        Err(e) => {
            violations.push(e);
            (None, violations)
        },
    }
}

} // verus!
