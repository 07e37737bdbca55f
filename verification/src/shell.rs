//! Plain state shared with the surrounding shell: its error taxonomy,
//! its tab selector, and the handle a data-browsing pane keeps on the
//! current knowledge base.

use std::sync::Arc;

use vstd::prelude::*;

use crate::db::{DbView, DB};

verus! {

/// What can go wrong around the core: the file dialog was dismissed, a
/// file could not be read, the source text was rejected at a 1-based
/// (line, column) position, or a query found nothing.
#[derive(Debug)]
pub enum Error {
    DialogClosed,
    IO(String),
    Parse(Arc<String>, (usize, usize)),
    Query(Arc<String>),
}

/// The pane the shell currently shows.
#[derive(Debug, Clone, Default, PartialEq)]
pub enum Tabs {
    #[default]
    Questions,
    Explorer,
    Logs,
    Editor,
}

/// The data-browsing pane's handle on the current knowledge base. The
/// base behind the handle is never mutated; a re-parse replaces the
/// handle wholesale.
#[derive(Debug)]
pub struct FileExplorer {
    pub db: Arc<DB>,
}

impl Default for FileExplorer {
    /// A handle on an empty knowledge base.
    fn default() -> (d: Self)
        ensures
            d.db@ =~~= DbView::empty(),
    {
        FileExplorer { db: Arc::new(DB::new()) }
    }
}

} // verus!
