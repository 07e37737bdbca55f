//! A timestamped message stash for the surrounding shell.
//!
//! Messages accumulate with a wall-clock stamp and a severity; the shell
//! renders them and may clear the stash. The wall clock is the one
//! outside dependency: nothing is promised of what it reads.

use vstd::prelude::*;
use vstd::string::StringExecFns;

use crate::shell::Error;

verus! {

/// Severity of one stashed message.
#[derive(Debug, Clone)]
pub enum LogSeverity {
    Info,
    Warning,
    Error,
}

/// One stashed message with its wall-clock stamp.
#[derive(Debug, Clone)]
pub struct LogEntry {
    pub severity: LogSeverity,
    pub timestamp: String,
    pub message: String,
}

/// The message stash.
#[derive(Debug)]
pub struct Logs {
    pub stash: Vec<LogEntry>,
}

/// Relies on chrono::Local::now, formatted as hour and minute: it reads
/// the wall clock, so nothing is promised of the result.
#[verifier::external_body]
fn now_hm() -> String {
    chrono::Local::now().format("%H:%M").to_string()
}

impl Logs {
    /// Stashes an informational message, stamped with the wall clock.
    pub fn debug(&mut self, msg: &str)
        ensures
            final(self).stash@.len() == old(self).stash@.len() + 1,
            final(self).stash@.subrange(0, old(self).stash@.len() as int) == old(self).stash@,
            final(self).stash@.last().severity is Info,
            final(self).stash@.last().message@ == msg@,
    {
        self.stash.push(
            LogEntry {
                severity: LogSeverity::Info,
                timestamp: now_hm(),
                message: msg.to_owned(),
            },
        );
        proof {
            assert(final(self).stash@.subrange(0, old(self).stash@.len() as int) =~= old(self).stash@);
        }
    }

    /// Stashes one error, rendered as a message whose prefix names the
    /// failure kind, stamped with the wall clock.
    pub fn error(&mut self, err: Error)
        ensures
            final(self).stash@.len() == old(self).stash@.len() + 1,
            final(self).stash@.subrange(0, old(self).stash@.len() as int) == old(self).stash@,
            match err {
                Error::DialogClosed => final(self).stash@.last().severity is Info && final(self).stash@.last().message@ == "Dialog closed"@,
                Error::IO(k) => final(self).stash@.last().severity is Error && final(self).stash@.last().message@ == "IO: "@ + k@,
                Error::Parse(m, _) => final(self).stash@.last().severity is Error && final(self).stash@.last().message@ == "Parser: "@ + m@,
                Error::Query(m) => final(self).stash@.last().severity is Info && final(self).stash@.last().message@ == "Search: "@ + m@,
            },
    {
        let stamp = now_hm();
        let entry = match err {
            Error::DialogClosed => LogEntry {
                severity: LogSeverity::Info,
                timestamp: stamp,
                message: "Dialog closed".to_owned(),
            },
            Error::IO(kind) => LogEntry {
                severity: LogSeverity::Error,
                timestamp: stamp,
                message: "IO: ".to_owned().concat(kind.as_str()),
            },
            Error::Parse(msg, _) => LogEntry {
                severity: LogSeverity::Error,
                timestamp: stamp,
                message: "Parser: ".to_owned().concat(msg.as_str()),
            },
            Error::Query(msg) => LogEntry {
                severity: LogSeverity::Info,
                timestamp: stamp,
                message: "Search: ".to_owned().concat(msg.as_str()),
            },
        };
        self.stash.push(entry);
        proof {
            assert(final(self).stash@.subrange(0, old(self).stash@.len() as int) =~= old(self).stash@);
        }
    }

    /// Empties the stash.
    pub fn clear_cache(&mut self)
        ensures
            final(self).stash@.len() == 0,
    {
        self.stash.clear();
    }
}

impl Default for Logs {
    /// An empty stash.
    fn default() -> (d: Self)
        ensures
            d.stash@.len() == 0,
    {
        Logs { stash: Vec::new() }
    }
}

} // verus!
