//! What the engine hands to whoever prints.

use vstd::prelude::*;
use crate::common::LintedFile;

verus! {

/// One thing to print.
#[derive(Debug, PartialEq, Eq)]
pub enum FormatterEvent {
    /// The violations of a file.
    FileViolations {
        f_name: String,
        violations: usize,
        only_fixable: bool,
        warn_unused_ignores: bool,
    },
}

/// Collects what is to be printed. The engine only adds to it; printing is
/// the caller's.
#[derive(Debug, PartialEq, Eq)]
pub struct OutputStreamFormatter {
    pub dispatched: Vec<FormatterEvent>,
}

/// What `dispatch_file_violations` records for a file.
pub open spec fn file_event(
    f_name: Seq<char>,
    file: LintedFile,
    only_fixable: bool,
    warn_unused_ignores: bool,
    e: FormatterEvent,
) -> bool {
    e matches FormatterEvent::FileViolations {
        f_name: name,
        violations,
        only_fixable: fixable,
        warn_unused_ignores: warn,
    } && name@ == f_name && violations == file.violations@.len() && fixable == only_fixable && warn
        == warn_unused_ignores
}

impl OutputStreamFormatter {
    /// Nothing to print yet.
    pub fn new() -> (f: OutputStreamFormatter)
        ensures
            f.dispatched@.len() == 0,
    {
        OutputStreamFormatter { dispatched: Vec::new() }
    }

    /// Records the violations of a linted file.
    pub fn dispatch_file_violations(
        &mut self,
        f_name: &str,
        linted_file: &LintedFile,
        only_fixable: bool,
        warn_unused_ignores: bool,
    )
        ensures
            final(self).dispatched@.len() == old(self).dispatched@.len() + 1,
            final(self).dispatched@.drop_last() == old(self).dispatched@,
            file_event(
                f_name@,
                *linted_file,
                only_fixable,
                warn_unused_ignores,
                final(self).dispatched@.last(),
            ),
    {
        let ghost before = self.dispatched@;
        self.dispatched.push(
            FormatterEvent::FileViolations {
                f_name: f_name.to_owned(),
                violations: linted_file.violations.len(),
                only_fixable,
                warn_unused_ignores,
            },
        );
        proof {
            assert(self.dispatched@.drop_last() =~= before);
        }
    }
}

} // verus!
