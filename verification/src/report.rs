//! The append-only action trail: one line per guard decision.

use crate::text::join2;
use vstd::prelude::*;

verus! {

/// A line to append to the file at `path`, which is created where it is missing.
#[derive(Debug)]
pub struct LogEntry {
    pub path: String,
    pub line: String,
}

/// Append-only action trail, reviewable after the fact by the user or their agent.
#[derive(Debug)]
pub struct ActionLog {
    pub path: String,
}

impl ActionLog {
    pub fn new(path: &str) -> (r: Self)
        ensures
            r.path@ == path@,
    {
        ActionLog { path: path.to_owned() }
    }

    /// The entry that records an action: its text on a line of its own.
    pub fn record(&self, action: &str) -> (r: LogEntry)
        ensures
            r.path == self.path,
            r.line@ == action@ + "\n"@,
    {
        LogEntry { path: self.path.clone(), line: join2(action, "\n") }
    }
}

}
