//! Rendering a source text before it is lexed.

use vstd::prelude::*;
use crate::config::FluffConfig;
use vstd::utf8::encode_utf8;
use crate::errors::SQLTemplaterError;

verus! {

/// A stretch of the source text and the stretch of the rendered text that it
/// gave, both in bytes.
#[derive(Clone, Copy, Debug, PartialEq, Eq, Structural)]
pub struct TemplatedFileSlice {
    pub source_start: usize,
    pub source_stop: usize,
    pub templated_start: usize,
    pub templated_stop: usize,
}

/// A source text, what it was rendered to, and how places in the two
/// correspond.
#[derive(Debug, PartialEq, Eq)]
pub struct TemplatedFile {
    pub source_str: String,
    pub f_name: String,
    pub templated_str: Option<String>,
    pub sliced_file: Vec<TemplatedFileSlice>,
}

impl TemplatedFile {
    /// Whether there is a rendered text.
    pub fn is_templated(&self) -> (b: bool)
        ensures
            b == self.templated_str is Some,
    {
        self.templated_str.is_some()
    }
}

/// What a templater hands back: the rendered file, or the violations that
/// kept it from rendering anything.
pub type TemplaterResult = Result<TemplatedFile, Vec<SQLTemplaterError>>;

/// A templating layer.
pub trait Templater {
    /// Renders the text `in_str` of the file named `f_name`.
    fn process(&self, in_str: &str, f_name: &str, config: &FluffConfig) -> TemplaterResult;
}

/// The templater that leaves the text as it is.
#[derive(Debug, PartialEq, Eq)]
pub struct RawTemplater {}

/// Whether `file` is the text `in_str` of the file `f_name`, rendered to
/// itself: one slice maps the whole text to the whole text.
pub open spec fn rendered_raw(in_str: Seq<char>, f_name: Seq<char>, file: TemplatedFile) -> bool {
    let len = encode_utf8(in_str).len() as usize;
    &&& file.source_str@ == in_str
    &&& file.f_name@ == f_name
    &&& file.templated_str matches Some(t) && t@ == in_str
    &&& file.sliced_file@ == seq![
        TemplatedFileSlice {
            source_start: 0,
            source_stop: len,
            templated_start: 0,
            templated_stop: len,
        },
    ]
}

impl Templater for RawTemplater {
    fn process(&self, in_str: &str, f_name: &str, config: &FluffConfig) -> (r: TemplaterResult)
        ensures
            r matches Ok(file) && rendered_raw(in_str@, f_name@, file),
    {
        let len: usize = in_str.len();
        let mut sliced_file: Vec<TemplatedFileSlice> = Vec::new();
        sliced_file.push(
            TemplatedFileSlice {
                source_start: 0,
                source_stop: len,
                templated_start: 0,
                templated_stop: len,
            },
        );
        Ok(
            TemplatedFile {
                source_str: in_str.to_owned(),
                f_name: f_name.to_owned(),
                templated_str: Some(in_str.to_owned()),
                sliced_file,
            },
        )
    }
}

impl RawTemplater {
    pub fn new() -> RawTemplater {
        RawTemplater {  }
    }
}

/// Whether `out` is something that the chosen templater may hand back for the
/// text `in_str`: the given templater, or the raw one where none is given.
pub open spec fn templater_admits<T: Templater>(
    templater: Option<T>,
    in_str: Seq<char>,
    f_name: Seq<char>,
    config: FluffConfig,
    out: TemplaterResult,
) -> bool {
    match templater {
        Some(t) => exists|text: &str, name: &str|
            text@ == in_str && name@ == f_name && #[trigger] call_ensures(
                T::process,
                (&t, text, name, &config),
                out,
            ),
        None => out matches Ok(file) && rendered_raw(in_str, f_name, file),
    }
}

/// Renders `in_str` with the given templater, or with the raw one where none
/// is given.
pub fn process_with<T: Templater>(
    templater: &Option<T>,
    in_str: &str,
    f_name: &str,
    config: &FluffConfig,
) -> (out: TemplaterResult)
    ensures
        templater_admits(*templater, in_str@, f_name@, *config, out),
{
    match templater {
        Some(t) => t.process(in_str, f_name, config),
        None => {
            let raw = RawTemplater::new();
            raw.process(in_str, f_name, config)
        },
    }
}

} // verus!
