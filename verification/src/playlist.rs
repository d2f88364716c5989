//! The playlist view: an ordered projection over the registry that hands
//! out the records discovered since the last read and clears their
//! new-flag in the same call — one-shot consume-on-read semantics.

use vstd::prelude::*;
use crate::record::{ContentRecord, FfiVideoDownload, is_summary_of};
use crate::cache::{Core, has_id, index_of_id, lemma_index_unique, downloading_pred,
    completed_bytes_fn};
use crate::stats::{lemma_count_pointwise, lemma_sum_pointwise};

verus! {

/// The record with its new-flag consumed; nothing else moves.
pub open spec fn cleared_version(r: ContentRecord) -> ContentRecord {
    ContentRecord { fresh: false, ..r }
}

/// Every record with its new-flag consumed.
pub open spec fn cleared_all(s: Seq<ContentRecord>) -> Seq<ContentRecord> {
    s.map_values(|r: ContentRecord| cleared_version(r))
}

/// The records currently flagged new, in discovery order.
pub open spec fn fresh_only(s: Seq<ContentRecord>) -> Seq<ContentRecord>
    decreases s.len(),
{
    if s.len() == 0 {
        s
    } else {
        let rest = fresh_only(s.drop_last());
        if s.last().fresh {
            rest.push(s.last())
        } else {
            rest
        }
    }
}

/// Once no record is flagged new, a read returns nothing: calling
/// `new_content` twice in a row with no discovery in between returns empty
/// the second time.
pub proof fn lemma_consumed_read_is_empty(s: Seq<ContentRecord>)
    requires
        forall|i: int| 0 <= i < s.len() ==> !(#[trigger] s[i]).fresh,
    ensures
        fresh_only(s).len() == 0,
    decreases s.len(),
{
    if s.len() > 0 {
        lemma_consumed_read_is_empty(s.drop_last());
    }
}

/// A record flagged new is reported by the read that consumes the flags,
/// and by no later read: it appears in exactly one adjacent read.
pub proof fn lemma_new_flag_reported_exactly_once(s: Seq<ContentRecord>, i: int)
    requires
        0 <= i < s.len(),
        s[i].fresh,
    ensures
        fresh_only(s).contains(s[i]),
        fresh_only(cleared_all(s)).len() == 0,
    decreases s.len(),
{
    assert forall|m: int| 0 <= m < cleared_all(s).len() implies !(
    #[trigger] cleared_all(s)[m]).fresh by {}
    lemma_consumed_read_is_empty(cleared_all(s));
    if i == s.len() - 1 {
        assert(fresh_only(s)[fresh_only(s).len() - 1] == s[i]);
    } else {
        lemma_new_flag_reported_exactly_once(s.drop_last(), i);
        let rest = fresh_only(s.drop_last());
        let k = choose|k: int| 0 <= k < rest.len() && rest[k] == s.drop_last()[i];
        assert(fresh_only(s)[k] == s[i]);
    }
}

impl Core {
    /// Return every record currently flagged new, projected, in discovery
    /// order, and clear their flags as part of the same call. A second
    /// read with no discovery in between returns nothing.
    pub fn new_content(&mut self) -> (fresh_items: Vec<FfiVideoDownload>)
        requires
            old(self).wf(),
        ensures
            final(self).wf(),
            final(self).records@ == cleared_all(old(self).records@),
            fresh_items@.len() == fresh_only(old(self).records@).len(),
            forall|k: int|
                0 <= k < fresh_items@.len() ==> is_summary_of(
                    #[trigger] fresh_items@[k],
                    fresh_only(old(self).records@)[k],
                ),
            final(self).completion_order@ == old(self).completion_order@,
            final(self).max_parallel_downloads == old(self).max_parallel_downloads,
            final(self).max_storage_bytes == old(self).max_storage_bytes,
            final(self).retry_limit == old(self).retry_limit,
    {
        let ghost old_records = self.records@;
        let ghost old_order = self.completion_order@;
        let ghost mpd = self.max_parallel_downloads;
        let ghost msb = self.max_storage_bytes;
        let ghost rlim = self.retry_limit;
        let n = self.records.len();
        let mut out: Vec<FfiVideoDownload> = Vec::new();
        let mut j: usize = 0;
        while j < n
            invariant
                self.completion_order@ == old_order,
                self.max_parallel_downloads == mpd,
                self.max_storage_bytes == msb,
                self.retry_limit == rlim,
                n == self.records@.len(),
                n == old_records.len(),
                j <= n,
                forall|k: int| 0 <= k < j ==> self.records@[k] == cleared_version(old_records[k]),
                forall|k: int| j <= k < n ==> self.records@[k] == old_records[k],
                out@.len() == fresh_only(old_records.subrange(0, j as int)).len(),
                forall|k: int|
                    0 <= k < out@.len() ==> is_summary_of(
                        #[trigger] out@[k],
                        fresh_only(old_records.subrange(0, j as int))[k],
                    ),
            decreases n - j,
        {
            proof {
                assert(old_records.subrange(0, j as int + 1).drop_last() =~= old_records.subrange(
                    0,
                    j as int,
                ));
                assert(old_records.subrange(0, j as int + 1).last() == old_records[j as int]);
            }
            if self.records[j].fresh {
                let s = self.records[j].summary();
                out.push(s);
            }
            let mut r = self.records[j].duplicate();
            r.fresh = false;
            self.records[j] = r;
            j = j + 1;
        }
        proof {
            assert(self.records@ =~= cleared_all(old_records));
            assert(old_records.subrange(0, n as int) =~= old_records);
            // clearing new-flags moves no id, state, byte count or path
            lemma_count_pointwise(self.records@, old_records, downloading_pred());
            lemma_sum_pointwise(self.records@, old_records, completed_bytes_fn());
            assert forall|k: int| 0 <= k < self.completion_ids().len() implies {
                &&& has_id(self.records@, #[trigger] self.completion_ids()[k])
                &&& self.records@[index_of_id(self.records@, self.completion_ids()[k])].state
                    is Completed
            } by {
                let qid = self.completion_ids()[k];
                let i0 = index_of_id(old_records, qid);
                assert(has_id(old_records, qid));
                assert(0 <= i0 < old_records.len() && old_records[i0].id@ == qid);
                assert(self.records@[i0].id@ == qid);
                lemma_index_unique(self.records@, qid, i0);
            }
            assert forall|m: int|
                0 <= m < self.records@.len() && (#[trigger] self.records@[m].state)
                    is Completed implies self.completion_ids().contains(self.records@[m].id@) by {
                assert(old_records[m].state is Completed);
            }
        }
        out
    }
}

} // verus!
