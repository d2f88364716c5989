//! The storage quota manager: completion accounting and eviction. Every
//! transition into Completed re-checks the budget and evicts
//! least-recently-completed records (ties cannot arise: completions are
//! totally ordered by the completion queue) until the completed records'
//! bytes fit `max_storage_bytes` again.

use vstd::prelude::*;
use crate::record::{ContentRecord, DownloadState};
use crate::cache::{Core, has_id, index_of_id, lemma_index_unique, downloading_pred,
    completed_bytes, completed_bytes_fn, is_downloading, record_ok};
use crate::stats::{sum_by, lemma_count_update, lemma_sum_update, lemma_count_remove,
    lemma_sum_remove, lemma_sum_push, lemma_sum_prefix_le, lemma_sum_pos_exists};

verus! {

/// A record evicted to free storage: its id and the local file the caller
/// must delete.
#[derive(Debug, Clone)]
pub struct Evicted {
    pub id: String,
    pub local_path: String,
}

/// What a completion report did.
#[derive(Debug)]
pub enum CompleteOutcome {
    /// No record with that id is downloading; nothing changed.
    Ignored,
    /// The transfer closed without its bytes matching a known positive
    /// total size landed in a local file: a size mismatch. The record moved
    /// to Failed and its partial file, if any, must be deleted by the
    /// caller.
    Faulted { partial: Option<String> },
    /// The record is Completed. The returned records were evicted to keep
    /// the storage budget, oldest completion first; their files must be
    /// deleted by the caller.
    Done { evicted: Vec<Evicted> },
}

/// The ids of the evicted entries, in order.
pub open spec fn evicted_ids(s: Seq<Evicted>) -> Seq<Seq<char>> {
    s.map_values(|e: Evicted| e.id@)
}

/// A transfer closed cleanly: the total size is known, positive and
/// exactly reached, and the bytes are in a local file.
pub open spec fn cleanly_complete(r: ContentRecord) -> bool {
    &&& r.content_length matches Some(l) && l > 0 && r.downloaded_bytes == l
    &&& r.local_path is Some
}

/// The record as completion stores it.
pub open spec fn completed_version(r: ContentRecord) -> ContentRecord {
    ContentRecord { state: DownloadState::Completed, downloading: false, ..r }
}

/// What eviction does: while the completed records' bytes exceed the
/// budget and the completion queue is not empty, drop the least recently
/// completed record and its queue entry. Returns the remaining records,
/// the remaining queue, and the evicted ids in eviction order.
pub open spec fn evict_spec(records: Seq<ContentRecord>, queue: Seq<Seq<char>>, budget: u64) -> (
    Seq<ContentRecord>,
    Seq<Seq<char>>,
    Seq<Seq<char>>,
)
    decreases queue.len(),
{
    if completed_bytes(records) <= budget || queue.len() == 0 {
        (records, queue, Seq::empty())
    } else if has_id(records, queue[0]) {
        let i = index_of_id(records, queue[0]);
        let rest = evict_spec(records.remove(i), queue.drop_first(), budget);
        (rest.0, rest.1, seq![queue[0]] + rest.2)
    } else {
        evict_spec(records, queue.drop_first(), budget)
    }
}

/// Removing the head of the completion queue together with its record
/// keeps everything but the quota intact.
pub proof fn lemma_evict_step(c0: Core, c1: Core, vi: int)
    requires
        c0.wf_base(),
        c0.completion_ids().len() > 0,
        0 <= vi < c0.records@.len(),
        c0.records@[vi].id@ == c0.completion_ids()[0],
        c1.records@ == c0.records@.remove(vi),
        c1.completion_order@ == c0.completion_order@.remove(0),
        c1.max_parallel_downloads == c0.max_parallel_downloads,
        c1.retry_limit == c0.retry_limit,
    ensures
        c1.wf_base(),
{
    c0.records@.remove_ensures(vi);
    assert(forall|k: int|
        0 <= k < c1.completion_order@.len() ==> c1.completion_order@[k]
            == c0.completion_order@[k + 1]);
    assert(forall|k: int|
        0 <= k < c1.completion_ids().len() ==> c1.completion_ids()[k] == c0.completion_ids()[k
            + 1]);
    assert forall|a: int, b: int| 0 <= a < b < c1.records@.len() implies c1.records@[a].id@
        != c1.records@[b].id@ by {
        let a0: int = if a < vi {
            a
        } else {
            a + 1
        };
        let b0: int = if b < vi {
            b
        } else {
            b + 1
        };
        assert(c1.records@[a] == c0.records@[a0]);
        assert(c1.records@[b] == c0.records@[b0]);
    }
    assert forall|m: int| 0 <= m < c1.records@.len() implies record_ok(
        #[trigger] c1.records@[m],
        c1.retry_limit,
    ) by {
        let m0: int = if m < vi {
            m
        } else {
            m + 1
        };
        assert(c1.records@[m] == c0.records@[m0]);
    }
    lemma_count_remove(c0.records@, downloading_pred(), vi);
    assert forall|k: int| 0 <= k < c1.completion_ids().len() implies {
        &&& has_id(c1.records@, #[trigger] c1.completion_ids()[k])
        &&& c1.records@[index_of_id(c1.records@, c1.completion_ids()[k])].state is Completed
    } by {
        let id = c1.completion_ids()[k];
        assert(id == c0.completion_ids()[k + 1]);
        let i0 = index_of_id(c0.records@, id);
        assert(has_id(c0.records@, id));
        assert(0 <= i0 < c0.records@.len() && c0.records@[i0].id@ == id);
        if i0 == vi {
            assert(c0.completion_ids()[0] == id);
            assert(false);
        }
        let j1: int = if i0 < vi {
            i0
        } else {
            i0 - 1
        };
        assert(c1.records@[j1] == c0.records@[i0]);
        lemma_index_unique(c1.records@, id, j1);
    }
    assert forall|m: int|
        0 <= m < c1.records@.len() && (#[trigger] c1.records@[m].state) is Completed implies c1
        .completion_ids().contains(c1.records@[m].id@) by {
        let m0: int = if m < vi {
            m
        } else {
            m + 1
        };
        assert(c1.records@[m] == c0.records@[m0]);
        assert(c0.completion_ids().contains(c0.records@[m0].id@));
        let q = choose|q: int|
            0 <= q < c0.completion_ids().len() && c0.completion_ids()[q] == c0.records@[m0].id@;
        if q == 0 {
            assert(c0.records@[vi].id@ == c0.records@[m0].id@);
            assert(m0 != vi);
            if m0 < vi {
                assert(c0.records@[m0].id@ != c0.records@[vi].id@);
            } else {
                assert(c0.records@[vi].id@ != c0.records@[m0].id@);
            }
            assert(false);
        }
        assert(c1.completion_ids()[q - 1] == c0.records@[m0].id@);
        assert(c1.completion_ids().contains(c1.records@[m].id@));
    }
}

impl Core {
    /// Whether the completed records' bytes exceed the storage budget.
    pub fn quota_exceeded(&self) -> (b: bool)
        ensures
            b == (completed_bytes(self.records@) > self.max_storage_bytes),
    {
        let n = self.records.len();
        let mut acc: u64 = 0;
        let mut j: usize = 0;
        while j < n
            invariant
                n == self.records@.len(),
                j <= n,
                acc as nat == sum_by(
                    self.records@.subrange(0, j as int),
                    completed_bytes_fn(),
                ),
            decreases n - j,
        {
            let add: u64 = if self.records[j].state == DownloadState::Completed {
                self.records[j].downloaded_bytes
            } else {
                0
            };
            proof {
                assert(self.records@.subrange(0, j as int + 1) =~= self.records@.subrange(
                    0,
                    j as int,
                ).push(self.records@[j as int]));
                lemma_sum_push(
                    self.records@.subrange(0, j as int),
                    completed_bytes_fn(),
                    self.records@[j as int],
                );
                lemma_sum_prefix_le(self.records@, completed_bytes_fn(), j as int + 1);
            }
            if add > u64::MAX - acc {
                return true;
            }
            acc = acc + add;
            j = j + 1;
        }
        proof {
            assert(self.records@.subrange(0, n as int) =~= self.records@);
        }
        acc > self.max_storage_bytes
    }

    /// Report that the transfer for the record closed. If the bytes match a
    /// known positive total size and sit in a local file, the record
    /// becomes Completed, the completion is appended to the queue, and the
    /// quota manager evicts least-recently-completed records until the
    /// budget holds again; the evicted records are returned so the caller
    /// can delete their files. A mismatch moves the record to Failed
    /// instead; a record that is not downloading is left untouched.
    pub fn complete(&mut self, id: &String) -> (out: CompleteOutcome)
        requires
            old(self).wf(),
        ensures
            final(self).wf(),
            match out {
                CompleteOutcome::Ignored => {
                    &&& final(self).records@ == old(self).records@
                    &&& final(self).completion_order@ == old(self).completion_order@
                    &&& has_id(old(self).records@, id@) ==> !is_downloading(
                        old(self).records@[index_of_id(old(self).records@, id@)],
                    )
                },
                CompleteOutcome::Faulted { partial } => {
                    let i = index_of_id(old(self).records@, id@);
                    &&& has_id(old(self).records@, id@)
                    &&& is_downloading(old(self).records@[i])
                    &&& !cleanly_complete(old(self).records@[i])
                    &&& final(self).records@ == old(self).records@.update(
                        i,
                        crate::scheduler::failed_version(old(self).records@[i]),
                    )
                    &&& partial == old(self).records@[i].local_path
                    &&& final(self).completion_order@ == old(self).completion_order@
                },
                CompleteOutcome::Done { evicted } => {
                    let i = index_of_id(old(self).records@, id@);
                    let r0 = old(self).records@[i];
                    let mid_records = old(self).records@.update(i, completed_version(r0));
                    let mid_queue = old(self).completion_ids().push(r0.id@);
                    let ev = evict_spec(mid_records, mid_queue, old(self).max_storage_bytes);
                    &&& has_id(old(self).records@, id@)
                    &&& is_downloading(r0)
                    &&& cleanly_complete(r0)
                    &&& final(self).records@ == ev.0
                    &&& final(self).completion_ids() == ev.1
                    &&& evicted_ids(evicted@) == ev.2
                    &&& forall|k: int|
                        0 <= k < evicted@.len() ==> {
                            &&& has_id(mid_records, (#[trigger] evicted@[k]).id@)
                            &&& mid_records[index_of_id(mid_records, evicted@[k].id@)].local_path
                                matches Some(p) && evicted@[k].local_path@ == p@
                        }
                    &&& completed_bytes(final(self).records@) <= old(self).max_storage_bytes
                },
            },
            final(self).max_parallel_downloads == old(self).max_parallel_downloads,
            final(self).max_storage_bytes == old(self).max_storage_bytes,
            final(self).retry_limit == old(self).retry_limit,
    {
        let found = self.find(id);
        let i = match found {
            Option::None => {
                return CompleteOutcome::Ignored;
            },
            Option::Some(i) => i,
        };
        proof {
            lemma_index_unique(self.records@, id@, i as int);
        }
        if self.records[i].state != DownloadState::Downloading {
            return CompleteOutcome::Ignored;
        }
        let clean = match self.records[i].content_length {
            Option::Some(l) => l > 0 && self.records[i].downloaded_bytes == l
                && self.records[i].local_path.is_some(),
            Option::None => false,
        };
        if !clean {
            let partial = self.fail_record_at(i);
            return CompleteOutcome::Faulted { partial };
        }
        let ghost orig = *old(self);
        let ghost old_records = self.records@;
        let ghost r0 = self.records@[i as int];
        let mut r = self.records[i].duplicate();
        r.state = DownloadState::Completed;
        r.downloading = false;
        self.records[i] = r;
        self.completion_order.push(id.clone());
        proof {
            assert(self.records@ == old_records.update(i as int, completed_version(r0)));
            lemma_count_update(old_records, downloading_pred(), i as int, completed_version(r0));
            lemma_sum_update(old_records, completed_bytes_fn(), i as int, completed_version(r0));
            assert(self.completion_ids() =~= orig.completion_ids().push(r0.id@));
            // the new queue entry is new: the record was downloading
            assert forall|k: int, l: int|
                0 <= k < l < self.completion_ids().len() implies self.completion_ids()[k]
                != self.completion_ids()[l] by {
                if l == self.completion_ids().len() - 1 {
                    if self.completion_ids()[k] == r0.id@ {
                        assert(orig.completion_ids()[k] == r0.id@);
                        lemma_index_unique(old_records, r0.id@, i as int);
                        assert(old_records[index_of_id(old_records, orig.completion_ids()[k])].state
                            is Completed);
                        assert(false);
                    }
                }
            }
            assert forall|k: int| 0 <= k < self.completion_ids().len() implies {
                &&& has_id(self.records@, #[trigger] self.completion_ids()[k])
                &&& self.records@[index_of_id(self.records@, self.completion_ids()[k])].state
                    is Completed
            } by {
                if k == self.completion_ids().len() - 1 {
                    lemma_index_unique(self.records@, r0.id@, i as int);
                } else {
                    let qid = orig.completion_ids()[k];
                    let i0 = index_of_id(old_records, qid);
                    assert(has_id(old_records, qid));
                    assert(0 <= i0 < old_records.len() && old_records[i0].id@ == qid);
                    assert(i0 != i as int);
                    assert(self.records@[i0] == old_records[i0]);
                    lemma_index_unique(self.records@, qid, i0);
                }
            }
            assert forall|m: int|
                0 <= m < self.records@.len() && (#[trigger] self.records@[m].state)
                    is Completed implies self.completion_ids().contains(self.records@[m].id@) by {
                if m == i as int {
                    assert(self.completion_ids()[self.completion_ids().len() - 1]
                        == self.records@[m].id@);
                } else {
                    assert(self.records@[m] == old_records[m]);
                    assert(orig.completion_ids().contains(old_records[m].id@));
                    let q = choose|q: int|
                        0 <= q < orig.completion_ids().len() && orig.completion_ids()[q]
                            == old_records[m].id@;
                    assert(self.completion_ids()[q] == self.records@[m].id@);
                }
            }
            assert(self.wf_base());
        }
        let ghost mid_records = self.records@;
        let ghost mid_queue = self.completion_ids();
        let ghost budget = self.max_storage_bytes;
        let ghost full = evict_spec(mid_records, mid_queue, budget);
        let ghost mpd = self.max_parallel_downloads;
        let ghost rlim = self.retry_limit;
        let mut evicted: Vec<Evicted> = Vec::new();
        proof {
            assert forall|j: int| 0 <= j < self.records@.len() implies {
                &&& has_id(mid_records, (#[trigger] self.records@[j]).id@)
                &&& mid_records[index_of_id(mid_records, self.records@[j].id@)]
                    == self.records@[j]
            } by {
                lemma_index_unique(mid_records, self.records@[j].id@, j);
            }
        }
        while self.quota_exceeded()
            invariant
                self.wf_base(),
                self.max_storage_bytes == budget,
                self.max_parallel_downloads == mpd,
                self.retry_limit == rlim,
                evict_spec(self.records@, self.completion_ids(), budget).0 == full.0,
                evict_spec(self.records@, self.completion_ids(), budget).1 == full.1,
                evicted_ids(evicted@) + evict_spec(
                    self.records@,
                    self.completion_ids(),
                    budget,
                ).2 == full.2,
                forall|k: int|
                    0 <= k < evicted@.len() ==> {
                        &&& has_id(mid_records, (#[trigger] evicted@[k]).id@)
                        &&& mid_records[index_of_id(mid_records, evicted@[k].id@)].local_path
                            matches Some(p) && evicted@[k].local_path@ == p@
                    },
                forall|j: int|
                    0 <= j < self.records@.len() ==> {
                        &&& has_id(mid_records, (#[trigger] self.records@[j]).id@)
                        &&& mid_records[index_of_id(mid_records, self.records@[j].id@)]
                            == self.records@[j]
                    },
            decreases self.completion_order@.len(),
        {
            let ghost pre = *self;
            proof {
                lemma_sum_pos_exists(self.records@, completed_bytes_fn());
                let m = choose|m: int|
                    0 <= m < self.records@.len() && completed_bytes_fn()(self.records@[m]) > 0;
                assert(self.records@[m].state is Completed);
                assert(self.completion_ids().contains(self.records@[m].id@));
                let w = choose|w: int|
                    0 <= w < self.completion_ids().len() && self.completion_ids()[w]
                        == self.records@[m].id@;
                assert(self.completion_order@.len() > 0);
            }
            let victim_qid = self.completion_order.remove(0);
            let vi = match self.find(&victim_qid) {
                Option::Some(v) => v,
                Option::None => {
                    proof {
                        assert(victim_qid@ == pre.completion_ids()[0]);
                        assert(has_id(pre.records@, pre.completion_ids()[0]));
                        assert(false);
                    }
                    0
                },
            };
            proof {
                assert(victim_qid@ == pre.completion_ids()[0]);
                lemma_index_unique(pre.records@, victim_qid@, vi as int);
            }
            let victim = self.records.remove(vi);
            let ghost gvictim = victim;
            let path = match victim.local_path {
                Option::Some(p) => p,
                Option::None => {
                    proof {
                        assert(record_ok(pre.records@[vi as int], pre.retry_limit));
                        assert(false);
                    }
                    String::new()
                },
            };
            let entry = Evicted { id: victim.id, local_path: path };
            let ghost pre_evicted = evicted@;
            evicted.push(entry);
            proof {
                lemma_evict_step(pre, *self, vi as int);
                lemma_sum_remove(pre.records@, completed_bytes_fn(), vi as int);
                // one unfolding of the specification matches this step
                assert(completed_bytes(pre.records@) > budget);
                assert(pre.completion_ids().len() > 0);
                assert(has_id(pre.records@, pre.completion_ids()[0]));
                assert(index_of_id(pre.records@, pre.completion_ids()[0]) == vi as int);
                assert(self.completion_ids() =~= pre.completion_ids().drop_first());
                assert(self.records@ == pre.records@.remove(vi as int));
                assert(evict_spec(pre.records@, pre.completion_ids(), budget).0 == evict_spec(
                    self.records@,
                    self.completion_ids(),
                    budget,
                ).0);
                assert(evict_spec(pre.records@, pre.completion_ids(), budget).1 == evict_spec(
                    self.records@,
                    self.completion_ids(),
                    budget,
                ).1);
                assert(evict_spec(pre.records@, pre.completion_ids(), budget).2 == seq![
                    pre.completion_ids()[0],
                ] + evict_spec(self.records@, self.completion_ids(), budget).2);
                assert(gvictim == pre.records@[vi as int]);
                assert(entry.id@ == pre.completion_ids()[0]);
                assert(evicted@ =~= pre_evicted.push(entry));
                assert(evicted_ids(evicted@) =~= evicted_ids(pre_evicted).push(entry.id@));
                assert(evicted_ids(evicted@) + evict_spec(
                    self.records@,
                    self.completion_ids(),
                    budget,
                ).2 =~= evicted_ids(pre_evicted) + evict_spec(
                    pre.records@,
                    pre.completion_ids(),
                    budget,
                ).2);
                // the new entry's file is the one the completed record holds
                assert(has_id(mid_records, entry.id@));
                assert(mid_records[index_of_id(mid_records, entry.id@)] == gvictim);
                // surviving records still map into the completed snapshot
                pre.records@.remove_ensures(vi as int);
                assert forall|j: int| 0 <= j < self.records@.len() implies {
                    &&& has_id(mid_records, (#[trigger] self.records@[j]).id@)
                    &&& mid_records[index_of_id(mid_records, self.records@[j].id@)]
                        == self.records@[j]
                } by {
                    let j0: int = if j < vi as int {
                        j
                    } else {
                        j + 1
                    };
                    assert(self.records@[j] == pre.records@[j0]);
                }
            }
        }
        proof {
            assert(evict_spec(self.records@, self.completion_ids(), budget).0 == self.records@);
            assert(evict_spec(self.records@, self.completion_ids(), budget).1
                == self.completion_ids());
            assert(evict_spec(self.records@, self.completion_ids(), budget).2
                =~= Seq::<Seq<char>>::empty());
            assert(evicted_ids(evicted@) + Seq::<Seq<char>>::empty() =~= evicted_ids(
                evicted@,
            ));
            assert(mid_records == orig.records@.update(
                index_of_id(orig.records@, id@),
                completed_version(orig.records@[index_of_id(orig.records@, id@)]),
            ));
            assert(mid_queue =~= orig.completion_ids().push(r0.id@));
        }
        CompleteOutcome::Done { evicted }
    }
}

} // verus!
