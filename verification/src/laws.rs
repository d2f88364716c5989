//! The library's laws: properties that hold across whole call sequences,
//! stated over the same spec functions the operations' contracts use and
//! proved once and for all.

use vstd::prelude::*;
use crate::record::ContentRecord;
use crate::cache::{Core, has_id, ids_distinct, ids_of, count_downloading, completed_bytes};

verus! {

/// A whole feed of discoveries, applied in order.
pub open spec fn discover_all(s: Seq<ContentRecord>, ds: Seq<ContentRecord>) -> Seq<ContentRecord>
    decreases ds.len(),
{
    if ds.len() == 0 {
        s
    } else {
        discover_all(Core::discover_one(s, ds[0]), ds.drop_first())
    }
}

/// Discovery is exact: after any sequence of discoveries with distinct,
/// previously unknown ids, the registry — and so `list_all` — holds
/// exactly the old ids followed by the discovered ids, each exactly once.
pub proof fn lemma_discovery_is_exact(s: Seq<ContentRecord>, ds: Seq<ContentRecord>)
    requires
        forall|a: int, b: int| 0 <= a < b < ds.len() ==> ds[a].id@ != ds[b].id@,
        forall|a: int| 0 <= a < ds.len() ==> !has_id(s, (#[trigger] ds[a]).id@),
    ensures
        ids_of(discover_all(s, ds)) == ids_of(s) + ids_of(ds),
        ids_distinct(s) ==> ids_distinct(discover_all(s, ds)),
    decreases ds.len(),
{
    if ds.len() == 0 {
        assert(ids_of(s) + ids_of(ds) =~= ids_of(s));
    } else {
        let d = ds[0];
        let s1 = Core::discover_one(s, d);
        assert(!has_id(s, d.id@));
        assert(s1 == s.push(d));
        let rest = ds.drop_first();
        assert(forall|a: int| 0 <= a < rest.len() ==> rest[a] == ds[a + 1]);
        assert forall|a: int| 0 <= a < rest.len() implies !has_id(s1, (#[trigger] rest[a]).id@) by {
            if has_id(s1, rest[a].id@) {
                let w = choose|w: int| 0 <= w < s1.len() && s1[w].id@ == rest[a].id@;
                if w < s.len() {
                    assert(has_id(s, rest[a].id@));
                } else {
                    assert(s1[w] == d);
                    assert(ds[0].id@ != ds[a + 1].id@);
                }
                assert(false);
            }
        }
        lemma_discovery_is_exact(s1, rest);
        assert(ids_of(s1) =~= ids_of(s).push(d.id@));
        assert(ids_of(discover_all(s, ds)) =~= ids_of(s) + ids_of(ds));
        if ids_distinct(s) {
            assert forall|i: int, j: int| 0 <= i < j < s1.len() implies s1[i].id@ != s1[j].id@ by {
                if j == s1.len() - 1 {
                    assert(s1[j] == d);
                    assert(!has_id(s, d.id@));
                    assert(s1[i] == s[i]);
                }
            }
        }
    }
}

/// A record's byte counter never decreases: every transition a record can
/// take keeps or raises `downloaded_bytes` (eviction removes the whole
/// record and moves no counter).
pub proof fn lemma_bytes_monotone(r: ContentRecord, chunk: u64)
    requires
        crate::scheduler::chunk_fits(r, chunk),
    ensures
        crate::scheduler::queued_version(r).downloaded_bytes >= r.downloaded_bytes,
        crate::scheduler::started_version(r).downloaded_bytes >= r.downloaded_bytes,
        crate::scheduler::failed_version(r).downloaded_bytes >= r.downloaded_bytes,
        crate::scheduler::progressed_version(r, chunk).downloaded_bytes >= r.downloaded_bytes,
        crate::quota::completed_version(r).downloaded_bytes >= r.downloaded_bytes,
        crate::playlist::cleared_version(r).downloaded_bytes >= r.downloaded_bytes,
{
}

/// A record's byte counter never overshoots a known total size.
pub proof fn lemma_bytes_bounded(c: Core)
    requires
        c.wf(),
    ensures
        forall|i: int|
            0 <= i < c.records@.len() ==> ((#[trigger] c.records@[i]).content_length matches Some(
                l,
            ) ==> c.records@[i].downloaded_bytes <= l),
{
}

/// At most `max_parallel_downloads` records are downloading at any
/// instant.
pub proof fn lemma_parallel_cap(c: Core)
    requires
        c.wf(),
    ensures
        count_downloading(c.records@) <= c.max_parallel_downloads,
{
}

/// After the quota manager has run — it runs as part of every completion —
/// the completed records' bytes fit the storage budget.
pub proof fn lemma_quota_held(c: Core)
    requires
        c.wf(),
    ensures
        completed_bytes(c.records@) <= c.max_storage_bytes,
{
}

} // verus!
