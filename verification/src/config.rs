//! The settings that the engine reads.

use vstd::prelude::*;
use vstd::string::StringExecFns;
use crate::errors::SQLFluffUserError;
use crate::text::{copy_texts, same_text, texts};

verus! {

/// A grammar variant.
#[derive(Clone, Copy, Debug, PartialEq, Eq, Structural)]
pub enum Dialect {
    Ansi,
}

/// The dialect of the given name, if there is one.
pub fn dialect_selector(name: &str) -> (d: Option<Dialect>)
    ensures
        d == dialect_named(name@),
{
    if same_text(name, "ansi") {
        Some(Dialect::Ansi)
    } else {
        None
    }
}

/// The dialect that a name stands for.
pub open spec fn dialect_named(name: Seq<char>) -> Option<Dialect> {
    if name == "ansi"@ {
        Some(Dialect::Ansi)
    } else {
        None
    }
}

/// The settings of one run.
#[derive(Debug, PartialEq, Eq)]
pub struct FluffConfig {
    pub dialect: Option<String>,
    pub sql_file_exts: Vec<String>,
    pub extra_config_path: Option<String>,
    pub tab_space_size: usize,
}

/// The mathematical value of a [`FluffConfig`].
pub struct FluffConfigView {
    pub dialect: Option<Seq<char>>,
    pub sql_file_exts: Seq<Seq<char>>,
    pub extra_config_path: Option<Seq<char>>,
    pub tab_space_size: usize,
}

/// The text of an optional string.
pub open spec fn text_of(s: Option<String>) -> Option<Seq<char>> {
    match s {
        Some(s) => Some(s@),
        None => None,
    }
}

impl View for FluffConfig {
    type V = FluffConfigView;

    open spec fn view(&self) -> FluffConfigView {
        FluffConfigView {
            dialect: text_of(self.dialect),
            sql_file_exts: texts(self.sql_file_exts@),
            extra_config_path: text_of(self.extra_config_path),
            tab_space_size: self.tab_space_size,
        }
    }
}

/// The value of the last setting named `key` among the first `k` of
/// `configs`, if there is one.
pub open spec fn setting(configs: Seq<(String, String)>, key: Seq<char>, k: nat) -> Option<
    Seq<char>,
>
    decreases k,
{
    if k == 0 || k > configs.len() {
        None
    } else if configs[k - 1].0@ == key {
        Some(configs[k - 1].1@)
    } else {
        setting(configs, key, (k - 1) as nat)
    }
}

/// The dialect that a set of settings names: the last `dialect` setting, and
/// `ansi` where there is none.
pub open spec fn configured_dialect(configs: Seq<(String, String)>) -> Seq<char> {
    match setting(configs, "dialect"@, configs.len()) {
        Some(name) => name,
        None => "ansi"@,
    }
}

/// A copy of an optional string.
pub fn copy_opt_text(s: &Option<String>) -> (r: Option<String>)
    ensures
        text_of(r) == text_of(*s),
{
    match s {
        Some(s) => Some(s.clone()),
        None => None,
    }
}

impl FluffConfig {
    /// The settings that `configs` gives, as pairs of a name and a value. Of
    /// these the engine reads `dialect`. Files are taken for SQL by the
    /// extension `.sql`, and a tab counts as four spaces unless `indentation`
    /// says otherwise.
    pub fn new(
        configs: Vec<(String, String)>,
        extra_config_path: Option<String>,
        indentation: Option<usize>,
    ) -> (config: FluffConfig)
        ensures
            config@.dialect == Some(configured_dialect(configs@)),
            config@.sql_file_exts == seq![".sql"@],
            config.extra_config_path == extra_config_path,
            config.tab_space_size == match indentation {
                Some(n) => n,
                None => 4usize,
            },
    {
        let mut dialect = String::from_str("ansi");
        let mut i: usize = 0;
        while i < configs.len()
            invariant
                i <= configs.len(),
                dialect@ == match setting(configs@, "dialect"@, i as nat) {
                    Some(name) => name,
                    None => "ansi"@,
                },
            decreases configs.len() - i,
        {
            if same_text(configs[i].0.as_str(), "dialect") {
                dialect = configs[i].1.clone();
            }
            i += 1;
        }
        let mut sql_file_exts: Vec<String> = Vec::new();
        sql_file_exts.push(String::from_str(".sql"));
        let tab_space_size: usize = match indentation {
            Some(n) => n,
            None => 4,
        };
        let config = FluffConfig {
            dialect: Some(dialect),
            sql_file_exts,
            extra_config_path,
            tab_space_size,
        };
        proof {
            assert(config@.sql_file_exts =~= seq![".sql"@]);
        }
        config
    }

    /// These settings with other extensions for SQL files.
    pub fn with_sql_file_exts(self, exts: Vec<String>) -> (config: FluffConfig)
        ensures
            config == (FluffConfig { sql_file_exts: exts, ..self }),
    {
        FluffConfig { sql_file_exts: exts, ..self }
    }

    /// The extensions by which a file is taken for SQL.
    pub fn sql_file_exts(&self) -> (exts: &Vec<String>)
        ensures
            exts == self.sql_file_exts,
    {
        &self.sql_file_exts
    }

    /// A copy of the settings.
    pub fn copy(&self) -> (config: FluffConfig)
        ensures
            config@ == self@,
    {
        FluffConfig {
            dialect: copy_opt_text(&self.dialect),
            sql_file_exts: copy_texts(&self.sql_file_exts),
            extra_config_path: copy_opt_text(&self.extra_config_path),
            tab_space_size: self.tab_space_size,
        }
    }

    /// The dialect that the settings resolve to, if they name one that
    /// exists.
    pub open spec fn resolved_dialect(&self) -> Option<Dialect> {
        match self.dialect {
            Some(name) => dialect_named(name@),
            None => None,
        }
    }

    /// What the user is told where the settings resolve to no dialect.
    pub open spec fn dialect_complaint(&self) -> Seq<char> {
        if self.dialect is None {
            "No dialect was specified."@
        } else {
            "The dialect that was specified is not known."@
        }
    }

    /// Nothing where the settings name a dialect that exists, and else the
    /// error to report to the user.
    pub fn verify_dialect_specified(&self) -> (e: Option<SQLFluffUserError>)
        ensures
            e is None <==> self.resolved_dialect() is Some,
            e matches Some(err) ==> err.value@ == self.dialect_complaint(),
    {
        match &self.dialect {
            None => Some(SQLFluffUserError::new(String::from_str("No dialect was specified."))),
            Some(name) => match dialect_selector(name.as_str()) {
                Some(_) => None,
                None => Some(
                    SQLFluffUserError::new(
                        String::from_str("The dialect that was specified is not known."),
                    ),
                ),
            },
        }
    }
}

} // verus!
