//! The records that carry one file through the pipeline.

use vstd::prelude::*;
use vstd::string::StringExecFns;
use crate::config::FluffConfig;
use crate::errors::{RuleFault, SQLTemplaterError, SqlError};
use crate::segment::ErasedSegment;
use crate::templater::{TemplatedFile, TemplaterResult};

verus! {

/// One file to lint: its name and its text.
#[derive(Debug, PartialEq, Eq)]
pub struct SourceText {
    pub f_name: String,
    pub text: String,
}

/// A file after templating: the rendered file if there is one, the
/// templater's violations, and the settings that it was rendered with.
#[derive(Debug, PartialEq, Eq)]
pub struct RenderedFile {
    pub templated_file: Option<TemplatedFile>,
    pub templater_violations: Vec<SQLTemplaterError>,
    pub config: FluffConfig,
    pub f_name: String,
    pub encoding: String,
}

/// A file after parsing: the tree if there is one, and the violations met so
/// far.
#[derive(Debug, PartialEq, Eq)]
pub struct ParsedString {
    pub tree: Option<ErasedSegment>,
    pub violations: Vec<SqlError>,
    pub templated_file: Option<TemplatedFile>,
    pub config: FluffConfig,
    pub f_name: String,
}

/// A file after linting: the final tree if there is one, the violations to
/// report, and the rules whose work was set aside.
#[derive(Debug, PartialEq, Eq)]
pub struct LintedFile {
    pub tree: Option<ErasedSegment>,
    pub templated_file: Option<TemplatedFile>,
    pub violations: Vec<SqlError>,
    pub faults: Vec<RuleFault>,
}

/// The linted files of one path.
#[derive(Debug, PartialEq, Eq)]
pub struct LintedDir {
    pub path: String,
    pub files: Vec<LintedFile>,
}

/// The linted files of a run, path by path.
#[derive(Debug, PartialEq, Eq)]
pub struct LintingResult {
    pub paths: Vec<LintedDir>,
}

/// Whether `rendered` is what becomes of the templater's answer `out`: the
/// rendered file without violations, or the violations without a file. The
/// encoding is `UTF-8` where none is named.
pub open spec fn rendered_from(
    out: TemplaterResult,
    config: FluffConfig,
    f_name: String,
    encoding: Option<String>,
    rendered: RenderedFile,
) -> bool {
    &&& rendered.config == config
    &&& rendered.f_name == f_name
    &&& rendered.encoding@ == match encoding {
        Some(e) => e@,
        None => "UTF-8"@,
    }
    &&& match out {
        Ok(file) => rendered.templated_file == Some(file) && rendered.templater_violations@.len()
            == 0,
        Err(violations) => rendered.templated_file is None && rendered.templater_violations
            == violations,
    }
}

impl RenderedFile {
    /// The rendered file that the templater's answer gives.
    pub fn from_templater(
        out: TemplaterResult,
        config: FluffConfig,
        f_name: String,
        encoding: Option<String>,
    ) -> (rendered: RenderedFile)
        ensures
            rendered_from(out, config, f_name, encoding, rendered),
    {
        let encoding = match encoding {
            Some(e) => e,
            None => String::from_str("UTF-8"),
        };
        match out {
            Ok(file) => RenderedFile {
                templated_file: Some(file),
                templater_violations: Vec::new(),
                config,
                f_name,
                encoding,
            },
            Err(violations) => RenderedFile {
                templated_file: None,
                templater_violations: violations,
                config,
                f_name,
                encoding,
            },
        }
    }
}

impl LintedDir {
    /// No file yet.
    pub fn new(path: String) -> (dir: LintedDir)
        ensures
            dir.path == path,
            dir.files@.len() == 0,
    {
        LintedDir { path, files: Vec::new() }
    }

    /// Adds a linted file.
    pub fn add(&mut self, file: LintedFile)
        ensures
            final(self).path == old(self).path,
            final(self).files@ == old(self).files@.push(file),
    {
        self.files.push(file);
    }
}

impl LintingResult {
    /// No path yet.
    pub fn new() -> (result: LintingResult)
        ensures
            result.paths@.len() == 0,
    {
        LintingResult { paths: Vec::new() }
    }

    /// Adds the linted files of a path.
    pub fn add(&mut self, dir: LintedDir)
        ensures
            final(self).paths@ == old(self).paths@.push(dir),
    {
        self.paths.push(dir);
    }
}

} // verus!
