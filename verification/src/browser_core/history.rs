//! Browsing history as read from the browser database.
use vstd::prelude::*;
use crate::browser_core::rows::{keep_present, present};

verus! {

/// One visit.
pub struct HistoryEntry {
    pub id: i64,
    pub url: String,
    pub title: String,
    pub visited_at: String,
}

/// History queries.
pub struct HistoryManager;

impl HistoryManager {
    /// The visits, newest first, from the rows read (in that order); rows
    /// that could not be decoded are skipped.
    pub fn get_history(rows: Vec<Option<HistoryEntry>>) -> (r: Vec<HistoryEntry>)
        ensures
            r@ == present(rows@),
    {
        keep_present(rows)
    }
}

} // verus!
