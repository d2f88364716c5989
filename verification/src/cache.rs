//! The cache core: configuration, the content registry that owns every
//! record, and the well-formedness invariant that every public operation
//! preserves. The host constructs one core per instance and passes its
//! handle to every entry point.

use vstd::prelude::*;
use crate::record::{ContentRecord, Descriptor, DownloadState, FfiVideoDownload};
use crate::record::is_summary_of;
use crate::stats::{count_where, sum_by, lemma_count_push};

verus! {

/// Default bound on transfer attempts per record: a record may be queued for
/// a transfer only while it has failed fewer times than this.
pub const DEFAULT_RETRY_LIMIT: u64 = 3;

/// Rejected configuration, surfaced at construction and fatal to startup.
#[derive(PartialEq, Eq, Structural, Clone, Copy, Debug)]
pub enum ConfigError {
    /// `max_parallel_downloads` was zero.
    ZeroConcurrency,
}

/// The download/cache core. The registry (`records`) exclusively owns all
/// content records, in discovery order; `completion_order` lists the ids of
/// the completed records, oldest completion first, and drives eviction.
pub struct Core {
    /// Read-only bound on simultaneous in-flight transfers; at least 1.
    pub max_parallel_downloads: usize,
    /// Read-only bound on total bytes of completed records' files.
    pub max_storage_bytes: u64,
    /// Read-only bound on transfer attempts per record.
    pub retry_limit: u64,
    /// All known records, keyed by their `id`, in discovery order.
    pub records: Vec<ContentRecord>,
    /// Ids of the completed records, least recently completed first.
    pub completion_order: Vec<String>,
}

/// The ids of the records, in order.
pub open spec fn ids_of(s: Seq<ContentRecord>) -> Seq<Seq<char>> {
    s.map_values(|r: ContentRecord| r.id@)
}

/// No two records share an id.
pub open spec fn ids_distinct(s: Seq<ContentRecord>) -> bool {
    forall|i: int, j: int| 0 <= i < j < s.len() ==> s[i].id@ != s[j].id@
}

/// Some record carries the id.
pub open spec fn has_id(s: Seq<ContentRecord>, id: Seq<char>) -> bool {
    exists|i: int| 0 <= i < s.len() && s[i].id@ == id
}

/// An index of the record carrying the id (the index, once ids are distinct).
pub open spec fn index_of_id(s: Seq<ContentRecord>, id: Seq<char>) -> int {
    choose|i: int| 0 <= i < s.len() && s[i].id@ == id
}

/// The first index whose record satisfies `p`, or -1 if none does.
pub open spec fn first_where(s: Seq<ContentRecord>, p: spec_fn(ContentRecord) -> bool) -> int
    decreases s.len(),
{
    if s.len() == 0 {
        -1
    } else if p(s[0]) {
        0
    } else {
        let rest = first_where(s.subrange(1, s.len() as int), p);
        if rest < 0 {
            -1
        } else {
            rest + 1
        }
    }
}

pub proof fn lemma_first_where(s: Seq<ContentRecord>, p: spec_fn(ContentRecord) -> bool)
    ensures
        first_where(s, p) >= 0 ==> {
            &&& first_where(s, p) < s.len()
            &&& p(s[first_where(s, p)])
            &&& forall|j: int| 0 <= j < first_where(s, p) ==> !p(s[j])
        },
        first_where(s, p) < 0 ==> forall|j: int| 0 <= j < s.len() ==> !p(s[j]),
    decreases s.len(),
{
    if s.len() == 0 {
    } else if p(s[0]) {
        assert(first_where(s, p) == 0);
    } else {
        let rest = s.subrange(1, s.len() as int);
        lemma_first_where(rest, p);
        assert(forall|j: int| 0 <= j < rest.len() ==> rest[j] == s[j + 1]);
        let r = first_where(rest, p);
        if r < 0 {
            assert(first_where(s, p) == -1);
            assert forall|j: int| 0 <= j < s.len() implies !p(s[j]) by {
                if j >= 1 {
                    assert(s[j] == rest[j - 1]);
                }
            }
        } else {
            assert(first_where(s, p) == r + 1);
            assert(p(s[r + 1]));
            assert forall|j: int| 0 <= j < r + 1 implies !p(s[j]) by {
                if j >= 1 {
                    assert(s[j] == rest[j - 1]);
                }
            }
        }
    }
}

/// Whether a transfer is in flight for the record.
pub open spec fn is_downloading(r: ContentRecord) -> bool {
    r.state is Downloading
}

/// The in-flight predicate as a value, so every use names one function.
pub open spec fn downloading_pred() -> spec_fn(ContentRecord) -> bool {
    |r: ContentRecord| is_downloading(r)
}

/// Whether the record waits for a worker slot.
pub open spec fn is_queued(r: ContentRecord) -> bool {
    r.state is Queued
}

/// The waiting predicate as a value.
pub open spec fn queued_pred() -> spec_fn(ContentRecord) -> bool {
    |r: ContentRecord| is_queued(r)
}

/// How many records have a transfer in flight.
pub open spec fn count_downloading(s: Seq<ContentRecord>) -> nat {
    count_where(s, downloading_pred())
}

/// The bytes a record occupies on disk once completed, zero otherwise.
pub open spec fn completed_record_bytes(r: ContentRecord) -> nat {
    if r.state is Completed {
        r.downloaded_bytes as nat
    } else {
        0nat
    }
}

/// The on-disk byte measure as a value.
pub open spec fn completed_bytes_fn() -> spec_fn(ContentRecord) -> nat {
    |r: ContentRecord| completed_record_bytes(r)
}

/// Total bytes of the completed records' local files.
pub open spec fn completed_bytes(s: Seq<ContentRecord>) -> nat {
    sum_by(s, completed_bytes_fn())
}

/// A record carrying a known id sits at `index_of_id`, and nowhere else
/// once ids are distinct.
pub proof fn lemma_index_unique(s: Seq<ContentRecord>, id: Seq<char>, i: int)
    requires
        ids_distinct(s),
        0 <= i < s.len(),
        s[i].id@ == id,
    ensures
        has_id(s, id),
        index_of_id(s, id) == i,
{
    assert(has_id(s, id));
    let j = index_of_id(s, id);
    assert(0 <= j < s.len() && s[j].id@ == id);
}

/// Per-record well-formedness, relative to the configured retry limit.
pub open spec fn record_ok(r: ContentRecord, retry_limit: u64) -> bool {
    &&& r.downloading <==> r.state is Downloading
    &&& r.content_length matches Some(l) ==> r.downloaded_bytes <= l
    &&& r.state is Completed ==> {
            &&& r.content_length matches Some(l) && l > 0 && r.downloaded_bytes == l
            &&& r.local_path is Some
        }
    &&& r.state is Discovered ==> {
            &&& r.downloaded_bytes == 0
            &&& r.content_length is None
            &&& r.local_path is None
            &&& r.attempts == 0
        }
    &&& r.state is Queued ==> r.local_path is None && r.attempts < retry_limit
    &&& r.state is Downloading ==> r.attempts < retry_limit
    &&& r.state is Failed ==> r.local_path is None
    &&& r.attempts <= retry_limit
}

/// Replacing one non-completed record by another non-completed record with
/// the same id leaves the completion queue consistent.
pub proof fn lemma_completion_order_update_non_completed(c0: Core, c1: Core, i: int, r1: ContentRecord)
    requires
        c0.completion_order_ok(),
        ids_distinct(c0.records@),
        0 <= i < c0.records@.len(),
        c1.records@ == c0.records@.update(i, r1),
        c1.completion_order@ == c0.completion_order@,
        r1.id@ == c0.records@[i].id@,
        !(c0.records@[i].state is Completed),
        !(r1.state is Completed),
    ensures
        ids_distinct(c1.records@),
        c1.completion_order_ok(),
{
    assert(forall|k: int|
        0 <= k < c1.records@.len() ==> (#[trigger] c1.records@[k]).id@ == c0.records@[k].id@);
    assert(c1.completion_ids() =~= c0.completion_ids());
    assert forall|k: int| 0 <= k < c1.completion_ids().len() implies {
        &&& has_id(c1.records@, #[trigger] c1.completion_ids()[k])
        &&& c1.records@[index_of_id(c1.records@, c1.completion_ids()[k])].state is Completed
    } by {
        let id = c1.completion_ids()[k];
        let i0 = index_of_id(c0.records@, id);
        assert(has_id(c0.records@, id));
        assert(0 <= i0 < c0.records@.len() && c0.records@[i0].id@ == id);
        assert(i0 != i);
        lemma_index_unique(c1.records@, id, i0);
    }
    assert forall|m: int|
        0 <= m < c1.records@.len() && (#[trigger] c1.records@[m].state) is Completed implies c1
        .completion_ids().contains(c1.records@[m].id@) by {
        assert(m != i);
        assert(c1.records@[m] == c0.records@[m]);
    }
}

impl Core {
    /// The completion queue as a sequence of id views, oldest first.
    pub open spec fn completion_ids(self) -> Seq<Seq<char>> {
        self.completion_order@.map_values(|s: String| s@)
    }

    /// Ids in the completion queue name exactly the completed records,
    /// each once.
    pub open spec fn completion_order_ok(self) -> bool {
        &&& forall|k: int, l: int|
                0 <= k < l < self.completion_ids().len()
                    ==> self.completion_ids()[k] != self.completion_ids()[l]
        &&& forall|k: int|
                0 <= k < self.completion_ids().len() ==> {
                    &&& has_id(self.records@, #[trigger] self.completion_ids()[k])
                    &&& self.records@[index_of_id(self.records@, self.completion_ids()[k])].state
                        is Completed
                }
        &&& forall|i: int|
                0 <= i < self.records@.len() && (#[trigger] self.records@[i].state) is Completed
                    ==> self.completion_ids().contains(self.records@[i].id@)
    }

    /// Everything the invariant asks besides the storage quota: valid
    /// configuration, distinct ids, per-record well-formedness, the
    /// concurrency cap, and a consistent completion queue. While the quota
    /// manager is still evicting, this much already holds.
    pub open spec fn wf_base(self) -> bool {
        &&& self.max_parallel_downloads >= 1
        &&& ids_distinct(self.records@)
        &&& forall|i: int|
                0 <= i < self.records@.len() ==> record_ok(
                    #[trigger] self.records@[i],
                    self.retry_limit,
                )
        &&& count_downloading(self.records@) <= self.max_parallel_downloads
        &&& self.completion_order_ok()
    }

    /// The invariant every operation preserves: `wf_base` and the storage
    /// quota.
    pub open spec fn wf(self) -> bool {
        &&& self.wf_base()
        &&& completed_bytes(self.records@) <= self.max_storage_bytes
    }

    /// Construct a core with the given bounds and the default retry limit.
    ///
    /// Fails exactly when `max_parallel_downloads` is zero; any
    /// `max_storage_bytes` is a valid budget.
    pub fn new(max_parallel_downloads: usize, max_storage_bytes: u64) -> (res: Result<
        Core,
        ConfigError,
    >)
        ensures
            res is Ok <==> max_parallel_downloads >= 1,
            res matches Ok(c) ==> {
                &&& c.wf()
                &&& c.max_parallel_downloads == max_parallel_downloads
                &&& c.max_storage_bytes == max_storage_bytes
                &&& c.retry_limit == DEFAULT_RETRY_LIMIT
                &&& c.records@.len() == 0
            },
            res matches Err(e) ==> e == ConfigError::ZeroConcurrency,
    {
        Core::with_retry_limit(max_parallel_downloads, max_storage_bytes, DEFAULT_RETRY_LIMIT)
    }

    /// Construct a core with an explicit bound on transfer attempts. A
    /// zero retry limit admits no transfer at all: every record then stays
    /// Discovered.
    pub fn with_retry_limit(
        max_parallel_downloads: usize,
        max_storage_bytes: u64,
        retry_limit: u64,
    ) -> (res: Result<Core, ConfigError>)
        ensures
            res is Ok <==> max_parallel_downloads >= 1,
            res matches Ok(c) ==> {
                &&& c.wf()
                &&& c.max_parallel_downloads == max_parallel_downloads
                &&& c.max_storage_bytes == max_storage_bytes
                &&& c.retry_limit == retry_limit
                &&& c.records@.len() == 0
            },
            res matches Err(e) ==> e == ConfigError::ZeroConcurrency,
    {
        if max_parallel_downloads == 0 {
            Result::Err(ConfigError::ZeroConcurrency)
        } else {
            Result::Ok(
                Core {
                    max_parallel_downloads,
                    max_storage_bytes,
                    retry_limit,
                    records: Vec::new(),
                    completion_order: Vec::new(),
                },
            )
        }
    }

    /// Index of the record with this id, if any.
    pub fn find(&self, id: &String) -> (res: Option<usize>)
        ensures
            match res {
                Some(i) => i < self.records@.len() && self.records@[i as int].id@ == id@,
                None => !has_id(self.records@, id@),
            },
    {
        let n = self.records.len();
        let mut j: usize = 0;
        while j < n
            invariant
                n == self.records@.len(),
                j <= n,
                forall|k: int| 0 <= k < j ==> self.records@[k].id@ != id@,
            decreases n - j,
        {
            if self.records[j].id == *id {
                return Option::Some(j);
            }
            j = j + 1;
        }
        Option::None
    }

    /// The record a fresh descriptor turns into.
    pub open spec fn fresh_record_of(d: Descriptor) -> ContentRecord {
        ContentRecord {
            id: d.id,
            url: d.url,
            metadata: d.metadata,
            content_length: Option::None,
            downloaded_bytes: 0,
            local_path: Option::None,
            downloading: false,
            state: DownloadState::Discovered,
            fresh: true,
            attempts: 0,
        }
    }

    /// One discovery step over the registry contents: append the record
    /// unless its id is already known.
    pub open spec fn discover_one(s: Seq<ContentRecord>, r: ContentRecord) -> Seq<ContentRecord> {
        if has_id(s, r.id@) {
            s
        } else {
            s.push(r)
        }
    }

    /// Admit a newly discovered descriptor: insert-if-absent, keyed by its
    /// id. Returns whether it was newly added; re-announcements of a known
    /// id leave the registry untouched. A newly added record starts out
    /// Discovered and flagged new for the playlist view.
    pub fn discover(&mut self, d: Descriptor) -> (added: bool)
        requires
            old(self).wf(),
        ensures
            final(self).wf(),
            added <==> !has_id(old(self).records@, d.id@),
            final(self).records@ == Self::discover_one(old(self).records@, Self::fresh_record_of(d)),
            final(self).completion_order@ == old(self).completion_order@,
            final(self).max_parallel_downloads == old(self).max_parallel_downloads,
            final(self).max_storage_bytes == old(self).max_storage_bytes,
            final(self).retry_limit == old(self).retry_limit,
    {
        match self.find(&d.id) {
            Option::Some(_) => false,
            Option::None => {
                let rec = ContentRecord {
                    id: d.id,
                    url: d.url,
                    metadata: d.metadata,
                    content_length: Option::None,
                    downloaded_bytes: 0,
                    local_path: Option::None,
                    downloading: false,
                    state: DownloadState::Discovered,
                    fresh: true,
                    attempts: 0,
                };
                let ghost old_records = self.records@;
                let ghost grec = rec;
                self.records.push(rec);
                proof {
                    lemma_count_push(old_records, downloading_pred(), grec);
                    crate::stats::lemma_sum_push(old_records, completed_bytes_fn(), grec);
                    assert forall|k: int| 0 <= k < self.completion_ids().len() implies {
                        &&& has_id(self.records@, #[trigger] self.completion_ids()[k])
                        &&& self.records@[index_of_id(self.records@, self.completion_ids()[k])].state
                            is Completed
                    } by {
                        let id = self.completion_ids()[k];
                        let i0 = index_of_id(old_records, id);
                        assert(has_id(old_records, id));
                        assert(self.records@[i0].id@ == id);
                        let i1 = index_of_id(self.records@, id);
                        assert(self.records@[i1].id@ == id);
                        if i1 == self.records@.len() - 1 {
                            assert(has_id(old_records, grec.id@));
                            assert(false);
                        }
                        assert(old_records[i1].id@ == id);
                        assert(i1 == i0);
                    }
                }
                true
            },
        }
    }

    /// Snapshot read of the record with this id.
    pub fn get(&self, id: &String) -> (res: Option<ContentRecord>)
        requires
            self.wf(),
        ensures
            match res {
                Some(r) => {
                    &&& has_id(self.records@, id@)
                    &&& r == self.records@[index_of_id(self.records@, id@)]
                },
                None => !has_id(self.records@, id@),
            },
    {
        match self.find(id) {
            Option::Some(i) => {
                let r = self.records[i].duplicate();
                proof {
                    let j = index_of_id(self.records@, id@);
                    assert(self.records@[j].id@ == id@);
                    assert(j == i as int);
                }
                Option::Some(r)
            },
            Option::None => Option::None,
        }
    }

    /// Project every known record, in discovery order. The summary of a
    /// record carries its local path exactly when the record is fully
    /// downloaded.
    pub fn list_all(&self) -> (res: Vec<FfiVideoDownload>)
        ensures
            res@.len() == self.records@.len(),
            forall|i: int|
                0 <= i < res@.len() ==> is_summary_of(#[trigger] res@[i], self.records@[i]),
    {
        let n = self.records.len();
        let mut out: Vec<FfiVideoDownload> = Vec::new();
        let mut j: usize = 0;
        while j < n
            invariant
                n == self.records@.len(),
                j <= n,
                out@.len() == j,
                forall|k: int|
                    0 <= k < j ==> is_summary_of(#[trigger] out@[k], self.records@[k]),
            decreases n - j,
        {
            let s = self.records[j].summary();
            out.push(s);
            j = j + 1;
        }
        out
    }
}

} // verus!
