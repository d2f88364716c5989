//! The content record: the unit of data the cache manages, together with the
//! descriptor it is created from and the projected summary handed to external
//! consumers.

use vstd::prelude::*;

verus! {

/// Where a record stands in its download lifecycle. Eviction removes the
/// record from the registry altogether, so an evicted record is represented
/// by its absence rather than by a stored state.
#[derive(PartialEq, Eq, Structural, Clone, Copy, Debug)]
pub enum DownloadState {
    /// Known to the registry, not yet admitted by the scheduler.
    Discovered,
    /// Waiting for a free worker slot, in discovery order.
    Queued,
    /// A transfer is in flight for this record.
    Downloading,
    /// The payload is fully on disk.
    Completed,
    /// The last transfer attempt failed; terminal once retries are exhausted.
    Failed,
}

/// Display metadata supplied entirely by the discovery feed; immutable once
/// attached to a record.
pub struct Metadata {
    pub title: String,
    pub author: String,
    pub like_count: u64,
    pub secondary_url: Option<String>,
}

/// What the discovery feed pushes into the core for one content item.
pub struct Descriptor {
    pub id: String,
    pub url: String,
    pub metadata: Metadata,
}

/// One content item as the registry owns it.
pub struct ContentRecord {
    /// Opaque unique identity; immutable after creation.
    pub id: String,
    /// Source location of the payload; immutable.
    pub url: String,
    /// Feed-supplied descriptor; immutable.
    pub metadata: Metadata,
    /// Expected total byte size; `None` until learned from the transfer,
    /// immutable once set.
    pub content_length: Option<u64>,
    /// Bytes landed so far; never decreases.
    pub downloaded_bytes: u64,
    /// Local file location; set once bytes begin landing on disk, cleared
    /// when a transfer fails and its partial file is discarded.
    pub local_path: Option<String>,
    /// True strictly while a transfer is in flight for this record.
    pub downloading: bool,
    /// Lifecycle state; kept in step with `downloading`.
    pub state: DownloadState,
    /// Playlist cursor: true from insertion until the record is returned by
    /// a `new_content` read.
    pub fresh: bool,
    /// Transfer attempts that have failed so far.
    pub attempts: u64,
}

/// The projected record summary handed across the external interface.
#[derive(Debug, Clone)]
pub struct FfiVideoDownload {
    pub id: String,
    pub url: String,
    pub title: Option<String>,
    pub local_path: Option<String>,
}

/// A record is fully downloaded iff its total size is known and positive,
/// the bytes on disk have reached it, and no transfer is in flight.
pub open spec fn fully_downloaded(r: ContentRecord) -> bool {
    &&& r.content_length matches Some(l) && l > 0 && r.downloaded_bytes >= l
    &&& !r.downloading
}

/// The two optional strings hold the same text (or are both absent).
pub open spec fn opt_str_eq(a: Option<String>, b: Option<String>) -> bool {
    match (a, b) {
        (Option::Some(x), Option::Some(y)) => x@ == y@,
        (Option::None, Option::None) => true,
        _ => false,
    }
}

/// `f` projects exactly the externally visible fields of `r`: identity, url,
/// title, and the local path only when the record is fully downloaded.
pub open spec fn is_summary_of(f: FfiVideoDownload, r: ContentRecord) -> bool {
    &&& f.id@ == r.id@
    &&& f.url@ == r.url@
    &&& f.title matches Some(t) && t@ == r.metadata.title@
    &&& if fully_downloaded(r) {
            opt_str_eq(f.local_path, r.local_path)
        } else {
            f.local_path is None
        }
}

/// Clone an optional string, preserving its text.
pub fn clone_opt_string(o: &Option<String>) -> (res: Option<String>)
    ensures
        opt_str_eq(res, *o),
        res is Some <==> *o is Some,
        res == *o,
{
    match o {
        Option::Some(s) => Option::Some(s.clone()),
        Option::None => Option::None,
    }
}

impl Metadata {
    /// Field-for-field copy.
    pub fn duplicate(&self) -> (res: Metadata)
        ensures
            res == *self,
    {
        Metadata {
            title: self.title.clone(),
            author: self.author.clone(),
            like_count: self.like_count,
            secondary_url: clone_opt_string(&self.secondary_url),
        }
    }
}

impl ContentRecord {
    /// Snapshot copy of a record, equal to it in every field.
    pub fn duplicate(&self) -> (res: ContentRecord)
        ensures
            res == *self,
    {
        ContentRecord {
            id: self.id.clone(),
            url: self.url.clone(),
            metadata: self.metadata.duplicate(),
            content_length: self.content_length,
            downloaded_bytes: self.downloaded_bytes,
            local_path: clone_opt_string(&self.local_path),
            downloading: self.downloading,
            state: self.state,
            fresh: self.fresh,
            attempts: self.attempts,
        }
    }

    /// The externally visible projection of this record.
    pub fn summary(&self) -> (res: FfiVideoDownload)
        ensures
            is_summary_of(res, *self),
    {
        let is_full = match self.content_length {
            Option::Some(total) => total > 0 && self.downloaded_bytes >= total && !self.downloading,
            Option::None => false,
        };
        let local_path = if is_full {
            clone_opt_string(&self.local_path)
        } else {
            Option::None
        };
        FfiVideoDownload {
            id: self.id.clone(),
            url: self.url.clone(),
            title: Option::Some(self.metadata.title.clone()),
            local_path: local_path,
        }
    }
}

} // verus!
