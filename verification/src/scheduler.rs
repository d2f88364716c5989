//! The download scheduler: admission under the concurrency cap, in
//! discovery order, and the per-record transfer transitions the host's
//! workers report back (progress, learned size, landed file, failure).

use vstd::prelude::*;
use crate::record::{ContentRecord, DownloadState};
use crate::cache::{Core, has_id, index_of_id, first_where, lemma_first_where,
    lemma_index_unique, lemma_completion_order_update_non_completed, count_downloading,
    downloading_pred, queued_pred, is_queued, is_downloading, completed_bytes_fn};
use crate::stats::{count_where, lemma_count_push, lemma_count_update, lemma_sum_update};

verus! {

/// What a progress report did to the record.
#[derive(Debug)]
pub enum ProgressOutcome {
    /// The record was downloading and the bytes were added.
    Applied,
    /// The bytes would have overflowed the counter or exceeded the known
    /// total size: the record moved to Failed and its partial file, if any,
    /// must be deleted by the caller.
    Faulted { partial: Option<String> },
    /// No record with that id is downloading; nothing changed.
    Ignored,
}

/// What a failure report did to the record.
#[derive(Debug)]
pub enum FailOutcome {
    /// No record with that id is downloading; nothing changed.
    Ignored,
    /// The record moved to Failed; the returned partial file, if any, must
    /// be deleted by the caller.
    Marked { partial: Option<String> },
}

/// A record may be (re)queued while it is not in flight, not completed, and
/// has attempts left.
pub open spec fn retry_eligible(r: ContentRecord, retry_limit: u64) -> bool {
    &&& r.state is Discovered || r.state is Queued || r.state is Failed
    &&& r.attempts < retry_limit
}

/// The record as `submit` re-queues it.
pub open spec fn queued_version(r: ContentRecord) -> ContentRecord {
    ContentRecord { state: DownloadState::Queued, ..r }
}

/// The record as `start_next` hands it to a worker.
pub open spec fn started_version(r: ContentRecord) -> ContentRecord {
    ContentRecord { state: DownloadState::Downloading, downloading: true, ..r }
}

/// The record after a failed transfer attempt: the flag drops, the attempt
/// counts, the partial file is discarded.
pub open spec fn failed_version(r: ContentRecord) -> ContentRecord {
    ContentRecord {
        state: DownloadState::Failed,
        downloading: false,
        local_path: Option::None,
        attempts: (r.attempts + 1) as u64,
        ..r
    }
}

/// The record after `chunk` more bytes landed.
pub open spec fn progressed_version(r: ContentRecord, chunk: u64) -> ContentRecord {
    ContentRecord { downloaded_bytes: (r.downloaded_bytes + chunk) as u64, ..r }
}

/// Whether `chunk` more bytes still fit the record's counter and its known
/// total size.
pub open spec fn chunk_fits(r: ContentRecord, chunk: u64) -> bool {
    &&& r.downloaded_bytes + chunk <= u64::MAX
    &&& (r.content_length matches Some(l) ==> r.downloaded_bytes + chunk <= l)
}

impl Core {
    /// Index of the oldest record (discovery order) waiting for a slot.
    fn first_queued(&self) -> (res: Option<usize>)
        ensures
            match res {
                Some(i) => {
                    &&& i < self.records@.len()
                    &&& is_queued(self.records@[i as int])
                    &&& forall|k: int| 0 <= k < i ==> !is_queued(self.records@[k])
                },
                None => forall|k: int| 0 <= k < self.records@.len() ==> !is_queued(
                    self.records@[k],
                ),
            },
    {
        let n = self.records.len();
        let mut j: usize = 0;
        while j < n
            invariant
                n == self.records@.len(),
                j <= n,
                forall|k: int| 0 <= k < j ==> !is_queued(self.records@[k]),
            decreases n - j,
        {
            if self.records[j].state == DownloadState::Queued {
                return Option::Some(j);
            }
            j = j + 1;
        }
        Option::None
    }

    /// How many records currently have a transfer in flight.
    pub fn downloading_count(&self) -> (c: usize)
        ensures
            c as nat == count_downloading(self.records@),
    {
        let n = self.records.len();
        let mut c: usize = 0;
        let mut j: usize = 0;
        while j < n
            invariant
                n == self.records@.len(),
                j <= n,
                c <= j,
                c as nat == count_where(self.records@.subrange(0, j as int), downloading_pred()),
            decreases n - j,
        {
            proof {
                assert(self.records@.subrange(0, j as int + 1) =~= self.records@.subrange(
                    0,
                    j as int,
                ).push(self.records@[j as int]));
                lemma_count_push(
                    self.records@.subrange(0, j as int),
                    downloading_pred(),
                    self.records@[j as int],
                );
            }
            if self.records[j].state == DownloadState::Downloading {
                c = c + 1;
            }
            j = j + 1;
        }
        proof {
            assert(self.records@.subrange(0, n as int) =~= self.records@);
        }
        c
    }

    /// Request a transfer start for the record: Discovered, Queued and
    /// retry-eligible Failed records become (or stay) Queued; a Downloading
    /// or Completed record, a record out of attempts, and an unknown id are
    /// left untouched.
    pub fn submit(&mut self, id: &String) -> (accepted: bool)
        requires
            old(self).wf(),
        ensures
            final(self).wf(),
            accepted <==> has_id(old(self).records@, id@) && retry_eligible(
                old(self).records@[index_of_id(old(self).records@, id@)],
                old(self).retry_limit,
            ),
            accepted ==> final(self).records@ == old(self).records@.update(
                index_of_id(old(self).records@, id@),
                queued_version(old(self).records@[index_of_id(old(self).records@, id@)]),
            ),
            !accepted ==> final(self).records@ == old(self).records@,
            final(self).completion_order@ == old(self).completion_order@,
            final(self).max_parallel_downloads == old(self).max_parallel_downloads,
            final(self).max_storage_bytes == old(self).max_storage_bytes,
            final(self).retry_limit == old(self).retry_limit,
    {
        let found = self.find(id);
        match found {
            Option::None => false,
            Option::Some(i) => {
                proof {
                    lemma_index_unique(self.records@, id@, i as int);
                }
                let st = self.records[i].state;
                let eligible = (st == DownloadState::Discovered || st == DownloadState::Queued
                    || st == DownloadState::Failed) && self.records[i].attempts < self.retry_limit;
                if !eligible {
                    return false;
                }
                let ghost old_records = self.records@;
                let ghost r0 = self.records@[i as int];
                let mut r = self.records[i].duplicate();
                r.state = DownloadState::Queued;
                self.records[i] = r;
                proof {
                    assert(self.records@ == old_records.update(i as int, queued_version(r0)));
                    lemma_count_update(old_records, downloading_pred(), i as int, queued_version(r0));
                    lemma_sum_update(old_records, completed_bytes_fn(), i as int, queued_version(r0));
                    lemma_completion_order_update_non_completed(
                        *old(self),
                        *self,
                        i as int,
                        queued_version(r0),
                    );
                }
                true
            },
        }
    }

    /// If a worker slot is free and some record is waiting, start the
    /// transfer of the oldest waiting record (discovery order) and return
    /// its id; otherwise change nothing and return `None`. Never lets more
    /// than `max_parallel_downloads` transfers run at once.
    pub fn start_next(&mut self) -> (started: Option<String>)
        requires
            old(self).wf(),
        ensures
            final(self).wf(),
            match started {
                Some(id) => {
                    let i = first_where(old(self).records@, queued_pred());
                    &&& count_downloading(old(self).records@) < old(self).max_parallel_downloads
                    &&& 0 <= i < old(self).records@.len()
                    &&& is_queued(old(self).records@[i])
                    &&& forall|j: int| 0 <= j < i ==> !is_queued(old(self).records@[j])
                    &&& id@ == old(self).records@[i].id@
                    &&& final(self).records@ == old(self).records@.update(
                        i,
                        started_version(old(self).records@[i]),
                    )
                    &&& count_downloading(final(self).records@) == count_downloading(
                        old(self).records@,
                    ) + 1
                },
                None => {
                    &&& final(self).records@ == old(self).records@
                    &&& (count_downloading(old(self).records@) >= old(self).max_parallel_downloads
                        || first_where(old(self).records@, queued_pred()) < 0)
                },
            },
            final(self).completion_order@ == old(self).completion_order@,
            final(self).max_parallel_downloads == old(self).max_parallel_downloads,
            final(self).max_storage_bytes == old(self).max_storage_bytes,
            final(self).retry_limit == old(self).retry_limit,
    {
        proof {
            lemma_first_where(self.records@, queued_pred());
        }
        if self.downloading_count() >= self.max_parallel_downloads {
            return Option::None;
        }
        let j = match self.first_queued() {
            Option::Some(j) => j,
            Option::None => {
                proof {
                    if first_where(self.records@, queued_pred()) >= 0 {
                        assert(is_queued(self.records@[first_where(self.records@, queued_pred())]));
                    }
                }
                return Option::None;
            },
        };
        proof {
            let f = first_where(self.records@, queued_pred());
            if f != j as int {
                if f < 0 || f > j as int {
                    assert(is_queued(self.records@[j as int]));
                    assert(false);
                } else {
                    assert(is_queued(self.records@[f]));
                    assert(false);
                }
            }
        }
        let ghost old_records = self.records@;
        let ghost r0 = self.records@[j as int];
        let id = self.records[j].id.clone();
        let mut r = self.records[j].duplicate();
        r.state = DownloadState::Downloading;
        r.downloading = true;
        self.records[j] = r;
        proof {
            assert(self.records@ == old_records.update(j as int, started_version(r0)));
            lemma_count_update(old_records, downloading_pred(), j as int, started_version(r0));
            lemma_sum_update(old_records, completed_bytes_fn(), j as int, started_version(r0));
            lemma_completion_order_update_non_completed(
                *old(self),
                *self,
                j as int,
                started_version(r0),
            );
        }
        Option::Some(id)
    }

    /// Record the payload size learned from the transfer. The size is set
    /// exactly once, only while the record is downloading, and only if it is
    /// positive and not already contradicted by the bytes on disk; any other
    /// report leaves the record untouched.
    pub fn set_content_length(&mut self, id: &String, total: u64) -> (set: bool)
        requires
            old(self).wf(),
        ensures
            final(self).wf(),
            set <==> has_id(old(self).records@, id@) && {
                let r = old(self).records@[index_of_id(old(self).records@, id@)];
                &&& is_downloading(r)
                &&& r.content_length is None
                &&& total > 0
                &&& r.downloaded_bytes <= total
            },
            set ==> final(self).records@ == old(self).records@.update(
                index_of_id(old(self).records@, id@),
                ContentRecord {
                    content_length: Option::Some(total),
                    ..old(self).records@[index_of_id(old(self).records@, id@)]
                },
            ),
            !set ==> final(self).records@ == old(self).records@,
            final(self).completion_order@ == old(self).completion_order@,
            final(self).max_parallel_downloads == old(self).max_parallel_downloads,
            final(self).max_storage_bytes == old(self).max_storage_bytes,
            final(self).retry_limit == old(self).retry_limit,
    {
        let found = self.find(id);
        match found {
            Option::None => false,
            Option::Some(i) => {
                proof {
                    lemma_index_unique(self.records@, id@, i as int);
                }
                let ok = self.records[i].state == DownloadState::Downloading
                    && self.records[i].content_length.is_none() && total > 0
                    && self.records[i].downloaded_bytes <= total;
                if !ok {
                    return false;
                }
                let ghost old_records = self.records@;
                let ghost r0 = self.records@[i as int];
                let mut r = self.records[i].duplicate();
                r.content_length = Option::Some(total);
                self.records[i] = r;
                proof {
                    let ghost r1 = ContentRecord { content_length: Option::Some(total), ..r0 };
                    assert(self.records@ == old_records.update(i as int, r1));
                    lemma_count_update(old_records, downloading_pred(), i as int, r1);
                    lemma_sum_update(old_records, completed_bytes_fn(), i as int, r1);
                    lemma_completion_order_update_non_completed(*old(self), *self, i as int, r1);
                }
                true
            },
        }
    }

    /// Record where the transfer's bytes are landing on disk. Set only
    /// while the record is downloading and only once per attempt.
    pub fn set_local_path(&mut self, id: &String, path: String) -> (set: bool)
        requires
            old(self).wf(),
        ensures
            final(self).wf(),
            set <==> has_id(old(self).records@, id@) && {
                let r = old(self).records@[index_of_id(old(self).records@, id@)];
                is_downloading(r) && r.local_path is None
            },
            set ==> final(self).records@ == old(self).records@.update(
                index_of_id(old(self).records@, id@),
                ContentRecord {
                    local_path: Option::Some(path),
                    ..old(self).records@[index_of_id(old(self).records@, id@)]
                },
            ),
            !set ==> final(self).records@ == old(self).records@,
            final(self).completion_order@ == old(self).completion_order@,
            final(self).max_parallel_downloads == old(self).max_parallel_downloads,
            final(self).max_storage_bytes == old(self).max_storage_bytes,
            final(self).retry_limit == old(self).retry_limit,
    {
        let found = self.find(id);
        match found {
            Option::None => false,
            Option::Some(i) => {
                proof {
                    lemma_index_unique(self.records@, id@, i as int);
                }
                let ok = self.records[i].state == DownloadState::Downloading
                    && self.records[i].local_path.is_none();
                if !ok {
                    return false;
                }
                let ghost old_records = self.records@;
                let ghost r0 = self.records@[i as int];
                let ghost gpath = path;
                let mut r = self.records[i].duplicate();
                r.local_path = Option::Some(path);
                self.records[i] = r;
                proof {
                    let r1 = ContentRecord { local_path: Option::Some(gpath), ..r0 };
                    assert(self.records@ == old_records.update(i as int, r1));
                    lemma_count_update(old_records, downloading_pred(), i as int, r1);
                    lemma_sum_update(old_records, completed_bytes_fn(), i as int, r1);
                    lemma_completion_order_update_non_completed(*old(self), *self, i as int, r1);
                }
                true
            },
        }
    }

    /// Add `chunk` freshly transferred bytes to the record. The byte count
    /// never decreases and never exceeds a known total size: a chunk that
    /// would overflow the counter or overshoot the size is a size mismatch
    /// and moves the record to Failed instead.
    pub fn record_progress(&mut self, id: &String, chunk: u64) -> (out: ProgressOutcome)
        requires
            old(self).wf(),
        ensures
            final(self).wf(),
            match out {
                ProgressOutcome::Applied => {
                    let i = index_of_id(old(self).records@, id@);
                    &&& has_id(old(self).records@, id@)
                    &&& is_downloading(old(self).records@[i])
                    &&& chunk_fits(old(self).records@[i], chunk)
                    &&& final(self).records@ == old(self).records@.update(
                        i,
                        progressed_version(old(self).records@[i], chunk),
                    )
                },
                ProgressOutcome::Faulted { partial } => {
                    let i = index_of_id(old(self).records@, id@);
                    &&& has_id(old(self).records@, id@)
                    &&& is_downloading(old(self).records@[i])
                    &&& !chunk_fits(old(self).records@[i], chunk)
                    &&& final(self).records@ == old(self).records@.update(
                        i,
                        failed_version(old(self).records@[i]),
                    )
                    &&& partial == old(self).records@[i].local_path
                },
                ProgressOutcome::Ignored => {
                    &&& final(self).records@ == old(self).records@
                    &&& has_id(old(self).records@, id@) ==> !is_downloading(
                        old(self).records@[index_of_id(old(self).records@, id@)],
                    )
                },
            },
            forall|k: int|
                0 <= k < old(self).records@.len() ==> final(self).records@[k].downloaded_bytes
                    >= old(self).records@[k].downloaded_bytes,
            final(self).completion_order@ == old(self).completion_order@,
            final(self).max_parallel_downloads == old(self).max_parallel_downloads,
            final(self).max_storage_bytes == old(self).max_storage_bytes,
            final(self).retry_limit == old(self).retry_limit,
    {
        let found = self.find(id);
        match found {
            Option::None => ProgressOutcome::Ignored,
            Option::Some(i) => {
                proof {
                    lemma_index_unique(self.records@, id@, i as int);
                }
                if self.records[i].state != DownloadState::Downloading {
                    return ProgressOutcome::Ignored;
                }
                let fits_counter = chunk <= u64::MAX - self.records[i].downloaded_bytes;
                let fits_total = match self.records[i].content_length {
                    Option::Some(l) => fits_counter && self.records[i].downloaded_bytes + chunk
                        <= l,
                    Option::None => fits_counter,
                };
                let ghost old_records = self.records@;
                let ghost r0 = self.records@[i as int];
                if fits_counter && fits_total {
                    let mut r = self.records[i].duplicate();
                    r.downloaded_bytes = r.downloaded_bytes + chunk;
                    self.records[i] = r;
                    proof {
                        let ghost r1 = progressed_version(r0, chunk);
                        assert(self.records@ == old_records.update(i as int, r1));
                        lemma_count_update(old_records, downloading_pred(), i as int, r1);
                        lemma_sum_update(old_records, completed_bytes_fn(), i as int, r1);
                        lemma_completion_order_update_non_completed(*old(self), *self, i as int, r1);
                    }
                    ProgressOutcome::Applied
                } else {
                    let partial = self.fail_record_at(i);
                    ProgressOutcome::Faulted { partial }
                }
            },
        }
    }

    /// Report a transfer error for the record: it moves to Failed, its
    /// worker slot frees, its attempt is counted and its partial file, if
    /// any, is handed back for deletion. A record that is not downloading
    /// is left untouched.
    pub fn fail(&mut self, id: &String) -> (out: FailOutcome)
        requires
            old(self).wf(),
        ensures
            final(self).wf(),
            match out {
                FailOutcome::Marked { partial } => {
                    let i = index_of_id(old(self).records@, id@);
                    &&& has_id(old(self).records@, id@)
                    &&& is_downloading(old(self).records@[i])
                    &&& final(self).records@ == old(self).records@.update(
                        i,
                        failed_version(old(self).records@[i]),
                    )
                    &&& partial == old(self).records@[i].local_path
                },
                FailOutcome::Ignored => {
                    &&& final(self).records@ == old(self).records@
                    &&& has_id(old(self).records@, id@) ==> !is_downloading(
                        old(self).records@[index_of_id(old(self).records@, id@)],
                    )
                },
            },
            final(self).completion_order@ == old(self).completion_order@,
            final(self).max_parallel_downloads == old(self).max_parallel_downloads,
            final(self).max_storage_bytes == old(self).max_storage_bytes,
            final(self).retry_limit == old(self).retry_limit,
    {
        let found = self.find(id);
        match found {
            Option::None => FailOutcome::Ignored,
            Option::Some(i) => {
                proof {
                    lemma_index_unique(self.records@, id@, i as int);
                }
                if self.records[i].state != DownloadState::Downloading {
                    return FailOutcome::Ignored;
                }
                let partial = self.fail_record_at(i);
                FailOutcome::Marked { partial }
            },
        }
    }

    /// Move the downloading record at `i` to Failed, returning its partial
    /// file path for deletion.
    pub(crate) fn fail_record_at(&mut self, i: usize) -> (partial: Option<String>)
        requires
            old(self).wf(),
            i < old(self).records@.len(),
            is_downloading(old(self).records@[i as int]),
        ensures
            final(self).wf(),
            final(self).records@ == old(self).records@.update(
                i as int,
                failed_version(old(self).records@[i as int]),
            ),
            partial == old(self).records@[i as int].local_path,
            final(self).completion_order@ == old(self).completion_order@,
            final(self).max_parallel_downloads == old(self).max_parallel_downloads,
            final(self).max_storage_bytes == old(self).max_storage_bytes,
            final(self).retry_limit == old(self).retry_limit,
    {
        let ghost old_records = self.records@;
        let ghost r0 = self.records@[i as int];
        let partial = crate::record::clone_opt_string(&self.records[i].local_path);
        let mut r = self.records[i].duplicate();
        r.state = DownloadState::Failed;
        r.downloading = false;
        r.local_path = Option::None;
        r.attempts = r.attempts + 1;
        self.records[i] = r;
        proof {
            let ghost r1 = failed_version(r0);
            assert(self.records@ == old_records.update(i as int, r1));
            lemma_count_update(old_records, downloading_pred(), i as int, r1);
            lemma_sum_update(old_records, completed_bytes_fn(), i as int, r1);
            lemma_completion_order_update_non_completed(*old(self), *self, i as int, r1);
        }
        partial
    }
}

} // verus!
