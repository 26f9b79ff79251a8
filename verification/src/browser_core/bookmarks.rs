//! Bookmarks as read from the browser database.
use vstd::prelude::*;
use crate::browser_core::rows::{keep_present, present};

verus! {

/// One bookmark.
pub struct BookmarkEntry {
    pub id: i64,
    pub url: String,
    pub title: String,
    pub favicon: Option<String>,
    pub created_at: String,
}

/// Bookmark queries.
pub struct BookmarksManager;

impl BookmarksManager {
    /// Whether a page is bookmarked, from the number of bookmarks with its URL
    /// (none when the count could not be read, which counts as not bookmarked).
    pub fn is_bookmarked(count: Option<i64>) -> (r: bool)
        ensures
            r == (match count {
                Some(c) => c > 0,
                None => false,
            }),
    {
        match count {
            Some(c) => c > 0,
            None => false,
        }
    }

    /// The bookmarks, newest first, from the rows read (in that order); rows
    /// that could not be decoded are skipped.
    pub fn get_bookmarks(rows: Vec<Option<BookmarkEntry>>) -> (r: Vec<BookmarkEntry>)
        ensures
            r@ == present(rows@),
    {
        keep_present(rows)
    }
}

} // verus!
