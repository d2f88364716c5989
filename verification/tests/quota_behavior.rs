//! Tests for completion and the storage quota manager: scenarios that walk
//! records through a whole download and watch eviction keep the budget.

use video_cache::cache::Core;
use video_cache::quota::CompleteOutcome;
use video_cache::record::{Descriptor, DownloadState, Metadata};

fn desc(id: &str) -> Descriptor {
    Descriptor {
        id: id.to_string(),
        url: format!("https://example.test/{id}"),
        metadata: Metadata {
            title: id.to_string(),
            author: "someone".to_string(),
            like_count: 0,
            secondary_url: None,
        },
    }
}

/// Drive one record through submit, start, size, bytes and completion, and
/// return the records evicted by the completion.
fn download_fully(core: &mut Core, id: &str, size: u64) -> Vec<video_cache::quota::Evicted> {
    let id = id.to_string();
    assert!(core.submit(&id));
    assert_eq!(core.start_next(), Some(id.clone()));
    assert!(core.set_local_path(&id, format!("/cache/{id}.mp4")));
    assert!(core.set_content_length(&id, size));
    assert!(matches!(
        core.record_progress(&id, size),
        video_cache::scheduler::ProgressOutcome::Applied
    ));
    match core.complete(&id) {
        CompleteOutcome::Done { evicted } => evicted,
        other => panic!("completion should succeed, got {other:?}"),
    }
}

#[test]
fn a_clean_completion_is_reported_with_its_path() {
    let mut core = Core::new(1, 10_000).unwrap();
    core.discover(desc("d"));
    let evicted = download_fully(&mut core, "d", 10);
    assert!(evicted.is_empty());
    let r = core.get(&"d".to_string()).unwrap();
    assert_eq!(r.state, DownloadState::Completed);
    assert_eq!(r.downloaded_bytes, 10);
    assert_eq!(r.content_length, Some(10));
    assert!(!r.downloading);
    let all = core.list_all();
    assert_eq!(all[0].local_path.as_deref(), Some("/cache/d.mp4"));
}

#[test]
fn completion_without_matching_bytes_is_a_mismatch() {
    let mut core = Core::new(1, 10_000).unwrap();
    core.discover(desc("d"));
    let d = "d".to_string();
    core.submit(&d);
    core.start_next();
    core.set_local_path(&d, "/cache/d.part".to_string());
    core.set_content_length(&d, 10);
    core.record_progress(&d, 6);
    match core.complete(&d) {
        CompleteOutcome::Faulted { partial } => {
            assert_eq!(partial.as_deref(), Some("/cache/d.part"));
        }
        other => panic!("short bytes must fault the record, got {other:?}"),
    }
    assert_eq!(core.get(&d).unwrap().state, DownloadState::Failed);
    // completing a record that is not downloading is a no-op
    assert!(matches!(core.complete(&d), CompleteOutcome::Ignored));
    assert!(matches!(core.complete(&"ghost".to_string()), CompleteOutcome::Ignored));
}

#[test]
fn completion_without_a_known_size_is_a_mismatch() {
    let mut core = Core::new(1, 10_000).unwrap();
    core.discover(desc("d"));
    let d = "d".to_string();
    core.submit(&d);
    core.start_next();
    core.set_local_path(&d, "/cache/d.part".to_string());
    core.record_progress(&d, 6);
    assert!(matches!(core.complete(&d), CompleteOutcome::Faulted { .. }));
}

#[test]
fn oldest_completion_is_evicted_when_the_budget_overflows() {
    // one worker, a 1000-byte budget, three 400-byte items
    let mut core = Core::new(1, 1000).unwrap();
    core.discover(desc("a"));
    core.discover(desc("b"));
    core.discover(desc("c"));
    assert!(download_fully(&mut core, "a", 400).is_empty());
    assert!(download_fully(&mut core, "b", 400).is_empty());
    // 1200 bytes would exceed 1000: the oldest completion, a, is evicted
    let evicted = download_fully(&mut core, "c", 400);
    assert_eq!(evicted.len(), 1);
    assert_eq!(evicted[0].id, "a");
    assert_eq!(evicted[0].local_path, "/cache/a.mp4");
    assert!(!core.quota_exceeded());
    // b and c stay, reported with their local paths; a's registry entry is
    // gone with its file, so nothing ever reports a as downloaded
    let all = core.list_all();
    let ids: Vec<String> = all.iter().map(|s| s.id.clone()).collect();
    assert_eq!(ids, vec!["b".to_string(), "c".to_string()]);
    assert_eq!(all[0].local_path.as_deref(), Some("/cache/b.mp4"));
    assert_eq!(all[1].local_path.as_deref(), Some("/cache/c.mp4"));
}

#[test]
fn a_single_item_larger_than_the_budget_completes_then_leaves() {
    let mut core = Core::new(1, 100).unwrap();
    core.discover(desc("big"));
    // the oversized item is allowed to complete, then is itself evicted
    let evicted = download_fully(&mut core, "big", 400);
    assert_eq!(evicted.len(), 1);
    assert_eq!(evicted[0].id, "big");
    assert!(core.list_all().is_empty());
    assert!(!core.quota_exceeded());
}

#[test]
fn eviction_keeps_evicting_until_the_budget_holds() {
    let mut core = Core::new(1, 500).unwrap();
    for id in ["a", "b", "c"] {
        core.discover(desc(id));
    }
    assert!(download_fully(&mut core, "a", 200).is_empty());
    assert!(download_fully(&mut core, "b", 200).is_empty());
    // 600 > 500: both a and b must leave before 200 fits again... a alone
    // suffices (400 <= 500), so exactly a goes
    let evicted = download_fully(&mut core, "c", 200);
    assert_eq!(evicted.len(), 1);
    assert_eq!(evicted[0].id, "a");
    // now push a large item: everything older must leave
    core.discover(desc("d"));
    let evicted = download_fully(&mut core, "d", 500);
    let ids: Vec<String> = evicted.iter().map(|e| e.id.clone()).collect();
    assert_eq!(ids, vec!["b".to_string(), "c".to_string()]);
    let remaining: Vec<String> = core.list_all().iter().map(|s| s.id.clone()).collect();
    assert_eq!(remaining, vec!["d".to_string()]);
}

#[test]
fn a_failed_then_retried_item_completes_with_exact_bytes() {
    // the transfer for d fails twice, then succeeds on the third attempt
    let mut core = Core::new(1, 10_000).unwrap();
    core.discover(desc("d"));
    let d = "d".to_string();
    for _ in 0..2 {
        assert!(core.submit(&d));
        assert_eq!(core.start_next(), Some(d.clone()));
        core.record_progress(&d, 3);
        assert!(matches!(
            core.fail(&d),
            video_cache::scheduler::FailOutcome::Marked { .. }
        ));
    }
    assert!(core.submit(&d));
    assert_eq!(core.start_next(), Some(d.clone()));
    assert!(core.set_local_path(&d, "/cache/d.mp4".to_string()));
    // earlier partial bytes still count toward the total
    let already = core.get(&d).unwrap().downloaded_bytes;
    assert!(core.set_content_length(&d, already + 10));
    assert!(matches!(
        core.record_progress(&d, 10),
        video_cache::scheduler::ProgressOutcome::Applied
    ));
    assert!(matches!(core.complete(&d), CompleteOutcome::Done { .. }));
    let r = core.get(&d).unwrap();
    assert_eq!(r.state, DownloadState::Completed);
    assert_eq!(Some(r.downloaded_bytes), r.content_length);
}
