//! The lint and fix engine of a SQL linter.
//!
//! A source text is rendered by a templater, lexed and parsed into a tree of
//! segments, and handed to a set of rules. Each rule reports violations and may
//! propose fixes, every fix anchored to one segment of the tree. The engine
//! groups the fixes of a rule by anchor, passes over the anchors whose fixes
//! contradict each other, rewrites the tree, and runs the rules again until a
//! pass changes nothing or the pass limit of the phase is reached.
//!
//! The templater, the lexer, the parser and the rules are supplied by the user
//! through traits. No contract in this crate assumes anything of what they
//! return: the contracts say which calls are made, with which arguments, and
//! what the engine does with each possible answer. Where a contract speaks of
//! the outcome of a whole run, it says that some sequence of answers, each one
//! possible for its call, leads to that outcome.
//!
//! What is believed without proof are the contracts of a few calls into other
//! crates and into std: `regex` for line ends, `uuid` for new anchors, `ahash`
//! and `itertools` for the set of paths, the lower case, the suffix test and
//! the sorting of strings, and one more handle to a shared segment. Each
//! stands in a small function of its own, with a comment that says what is
//! claimed of it.
//!
//! The modules, from the leaves up:
//!
//! - [`segment`]: the syntax tree.
//! - [`fix`]: fixes, and the single edit that the fixes of one anchor amount
//!   to.
//! - [`plan`]: the fixes of a batch, grouped by anchor.
//! - [`rewrite`]: rewriting a tree by such a plan.
//! - [`rules`], [`templater`], [`parser`]: what the engine asks of its
//!   collaborators.
//! - [`run`]: the loop of phases and passes.
//! - [`laws`]: what holds of every run.
//! - [`linter`]: the pipeline of one file, and of many.
//! - [`paths`]: choosing the files to lint.
//! - [`common`], [`config`], [`errors`], [`formatter`], [`text`]: records,
//!   settings, errors, what is handed to the printer, and work on text.

pub mod common;
pub mod config;
pub mod errors;
pub mod fix;
pub mod formatter;
pub mod laws;
pub mod linter;
pub mod parser;
pub mod paths;
pub mod plan;
pub mod rewrite;
pub mod rules;
pub mod run;
pub mod segment;
pub mod templater;
pub mod text;
