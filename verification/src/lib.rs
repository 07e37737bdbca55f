//! A small knowledge-base engine.
//!
//! The crate parses a plain-text catalog of classified concepts into an
//! immutable [`db::DB`], and resolves a partially answered questionnaire
//! against that catalog to a single conclusion.
//!
//! * [`db`] — the in-memory data model and its builder operations.
//! * [`grammar`] — the input grammar, stated as specification functions.
//! * [`parser`] — the executable parser, proved equal to the grammar.
//! * [`resolver`] — the two-phase query resolution algorithm.
//! * [`questions`] — the questionnaire pane's state, as plain data.
//! * [`logs`] — a timestamped message stash for the surrounding shell.
//! * [`shell`] — plain state shared with the surrounding shell.

pub mod db;
pub mod grammar;
pub mod parser;
pub mod resolver;
pub mod logs;
pub mod questions;
pub mod shell;
