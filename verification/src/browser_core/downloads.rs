//! Downloads started in this session.
use vstd::prelude::*;
use crate::text::{push_signed_decimal, signed_decimal};

verus! {

/// One download.
pub struct DownloadItem {
    pub id: String,
    pub filename: String,
    pub url: String,
    pub path: String,
    pub total_bytes: u64,
    pub downloaded_bytes: u64,
    pub state: String,
}

/// The contents of a `DownloadItem`.
pub ghost struct DownloadView {
    pub id: Seq<char>,
    pub filename: Seq<char>,
    pub url: Seq<char>,
    pub path: Seq<char>,
    pub total_bytes: u64,
    pub downloaded_bytes: u64,
    pub state: Seq<char>,
}

impl View for DownloadItem {
    type V = DownloadView;

    open spec fn view(&self) -> DownloadView {
        DownloadView {
            id: self.id@,
            filename: self.filename@,
            url: self.url@,
            path: self.path@,
            total_bytes: self.total_bytes,
            downloaded_bytes: self.downloaded_bytes,
            state: self.state@,
        }
    }
}

/// The contents of a list of downloads.
pub open spec fn download_views(s: Seq<DownloadItem>) -> Seq<DownloadView> {
    s.map_values(|d: DownloadItem| d@)
}

/// The id of a download started at `millis` milliseconds after the Unix epoch.
pub open spec fn download_id(millis: int) -> Seq<char> {
    seq!['d', 'l', '_'] + signed_decimal(millis)
}

/// The record of a download started at `millis`: recorded as completed, with
/// no bytes counted as downloaded yet.
pub open spec fn new_download(
    filename: Seq<char>,
    url: Seq<char>,
    path: Seq<char>,
    total_bytes: u64,
    millis: int,
) -> DownloadView {
    DownloadView {
        id: download_id(millis),
        filename: filename,
        url: url,
        path: path,
        total_bytes: total_bytes,
        downloaded_bytes: 0,
        state: "completed"@,
    }
}

/// The current time in milliseconds since the Unix epoch
/// (`chrono::Utc::now().timestamp_millis()`).
#[verifier::external_body]
fn now_millis() -> i64 {
    chrono::Utc::now().timestamp_millis()
}

/// A copy of a download record.
fn copy_item(d: &DownloadItem) -> (r: DownloadItem)
    ensures
        r == *d,
{
    DownloadItem {
        id: d.id.clone(),
        filename: d.filename.clone(),
        url: d.url.clone(),
        path: d.path.clone(),
        total_bytes: d.total_bytes,
        downloaded_bytes: d.downloaded_bytes,
        state: d.state.clone(),
    }
}

/// The downloads of this session.
pub struct DownloadManager {
    downloads: Vec<DownloadItem>,
}

impl View for DownloadManager {
    type V = Seq<DownloadView>;

    closed spec fn view(&self) -> Seq<DownloadView> {
        download_views(self.downloads@)
    }
}

impl DownloadManager {
    /// No downloads.
    pub fn new() -> (m: Self)
        ensures
            m@ == Seq::<DownloadView>::empty(),
    {
        let m = DownloadManager { downloads: Vec::new() };
        assert(m@ =~= Seq::<DownloadView>::empty());
        m
    }

    /// Records a download, stamped with the current time.
    pub fn add_download(&mut self, filename: String, url: String, path: String, total_bytes: u64) -> (r:
        DownloadItem)
        ensures
            exists|millis: i64|
                r@ == new_download(filename@, url@, path@, total_bytes, millis as int),
            final(self)@ == old(self)@.push(r@),
    {
        let millis = now_millis();
        self.add_download_at(filename, url, path, total_bytes, millis)
    }

    /// Records a download started at `millis`.
    pub fn add_download_at(
        &mut self,
        filename: String,
        url: String,
        path: String,
        total_bytes: u64,
        millis: i64,
    ) -> (r: DownloadItem)
        ensures
            r@ == new_download(filename@, url@, path@, total_bytes, millis as int),
            final(self)@ == old(self)@.push(r@),
    {
        let mut id = String::from_str("dl_");
        proof {
            reveal_strlit("dl_");
        }
        push_signed_decimal(&mut id, millis);
        assert(id@ =~= download_id(millis as int));
        let item = DownloadItem {
            id,
            filename,
            url,
            path,
            total_bytes,
            downloaded_bytes: 0,
            state: String::from_str("completed"),
        };
        let ghost before = self.downloads@;
        self.downloads.push(copy_item(&item));
        assert(self@ =~= download_views(before).push(item@));
        item
    }

    /// The downloads, oldest first.
    pub fn get_downloads(&self) -> (r: Vec<DownloadItem>)
        ensures
            download_views(r@) == self@,
    {
        let mut r: Vec<DownloadItem> = Vec::new();
        let mut i: usize = 0;
        while i < self.downloads.len()
            invariant
                i <= self.downloads.len(),
                download_views(r@) == self@.subrange(0, i as int),
            decreases self.downloads.len() - i,
        {
            let ghost before = r@;
            r.push(copy_item(&self.downloads[i]));
            assert(download_views(r@) =~= download_views(before).push(self@[i as int]));
            i = i + 1;
            assert(download_views(r@) =~= self@.subrange(0, i as int));
        }
        assert(self@.subrange(0, i as int) =~= self@);
        r
    }
}

} // verus!
