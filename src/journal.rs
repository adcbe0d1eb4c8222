//! Records of a journal of pending index changes.
use vstd::prelude::*;

verus! {

/// What a journal entry changes.
#[derive(Debug, Clone, Copy, PartialEq, Eq, Structural)]
pub enum JournalCommand {
    Empty,
    DocumentUpdate,
    KeywordShardUpdate,
}

/// How a journal entry changes it.
#[derive(Debug, Clone, Copy, PartialEq, Eq, Structural)]
pub enum JournalAction {
    Append,
    Delete,
}

/// One pending change: a document added to or deleted from a keyword's
/// shard.
pub struct JournalUpdateEntry {
    pub kind: JournalCommand,
    /// The key of the keyword shard.
    pub kv: String,
    /// The key of the document.
    pub doc_kv: String,
    pub action: JournalAction,
}

/// A journal: its pending changes and when it was last worked through.
pub struct JournalData {
    pub entries: Vec<JournalUpdateEntry>,
    pub last_index: u64,
}

impl JournalData {
    /// An empty journal, stamped `now`.
    pub fn new(now: u64) -> (r: JournalData)
        ensures
            r.entries@.len() == 0,
            r.last_index == now,
    {
        JournalData { entries: Vec::new(), last_index: now }
    }
}

} // verus!
