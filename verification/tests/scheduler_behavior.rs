//! Tests for the download scheduler: admission order, the concurrency cap,
//! progress accounting, failure and retries.

use video_cache::cache::Core;
use video_cache::record::{Descriptor, DownloadState, Metadata};
use video_cache::scheduler::{FailOutcome, ProgressOutcome};

fn desc(id: &str) -> Descriptor {
    Descriptor {
        id: id.to_string(),
        url: format!("https://example.test/{id}"),
        metadata: Metadata {
            title: id.to_string(),
            author: "someone".to_string(),
            like_count: 0,
            secondary_url: None,
        },
    }
}

#[test]
fn admission_respects_the_parallel_cap() {
    let mut core = Core::new(1, 10_000).unwrap();
    core.discover(desc("a"));
    core.discover(desc("b"));
    assert!(core.submit(&"a".to_string()));
    assert!(core.submit(&"b".to_string()));
    assert_eq!(core.start_next(), Some("a".to_string()));
    // the single worker slot is taken
    assert_eq!(core.start_next(), None);
    assert_eq!(core.downloading_count(), 1);
}

#[test]
fn admission_is_in_discovery_order() {
    let mut core = Core::new(2, 10_000).unwrap();
    core.discover(desc("a"));
    core.discover(desc("b"));
    core.discover(desc("c"));
    // submission order does not matter: discovery order governs
    assert!(core.submit(&"c".to_string()));
    assert!(core.submit(&"b".to_string()));
    assert!(core.submit(&"a".to_string()));
    assert_eq!(core.start_next(), Some("a".to_string()));
    assert_eq!(core.start_next(), Some("b".to_string()));
    assert_eq!(core.start_next(), None);
}

#[test]
fn submit_ignores_unknown_downloading_and_completed() {
    let mut core = Core::new(1, 10_000).unwrap();
    assert!(!core.submit(&"ghost".to_string()));
    core.discover(desc("a"));
    core.submit(&"a".to_string());
    core.start_next();
    // already downloading: no-op
    assert!(!core.submit(&"a".to_string()));
}

#[test]
fn progress_is_monotone_and_capped_by_the_known_size() {
    let mut core = Core::new(1, 10_000).unwrap();
    core.discover(desc("a"));
    let a = "a".to_string();
    core.submit(&a);
    core.start_next();
    assert!(core.set_content_length(&a, 100));
    assert!(matches!(core.record_progress(&a, 60), ProgressOutcome::Applied));
    assert_eq!(core.get(&a).unwrap().downloaded_bytes, 60);
    // 60 + 50 would overshoot the known size of 100: a size mismatch
    assert!(matches!(core.record_progress(&a, 50), ProgressOutcome::Faulted { .. }));
    let r = core.get(&a).unwrap();
    assert_eq!(r.state, DownloadState::Failed);
    // the byte counter never decreased
    assert_eq!(r.downloaded_bytes, 60);
    assert!(!r.downloading);
}

#[test]
fn progress_overflow_faults_the_record() {
    let mut core = Core::new(1, 10_000).unwrap();
    core.discover(desc("a"));
    let a = "a".to_string();
    core.submit(&a);
    core.start_next();
    assert!(matches!(core.record_progress(&a, u64::MAX), ProgressOutcome::Applied));
    assert!(matches!(core.record_progress(&a, 1), ProgressOutcome::Faulted { .. }));
    assert_eq!(core.get(&a).unwrap().state, DownloadState::Failed);
}

#[test]
fn content_length_is_set_once_and_sanity_checked() {
    let mut core = Core::new(1, 10_000).unwrap();
    core.discover(desc("a"));
    let a = "a".to_string();
    // not downloading yet: rejected
    assert!(!core.set_content_length(&a, 100));
    core.submit(&a);
    core.start_next();
    // zero is not a usable size
    assert!(!core.set_content_length(&a, 0));
    assert!(core.set_content_length(&a, 100));
    // immutable once set
    assert!(!core.set_content_length(&a, 200));
    assert_eq!(core.get(&a).unwrap().content_length, Some(100));
}

#[test]
fn failure_discards_the_partial_file_and_frees_the_slot() {
    let mut core = Core::new(1, 10_000).unwrap();
    core.discover(desc("a"));
    let a = "a".to_string();
    core.submit(&a);
    core.start_next();
    assert!(core.set_local_path(&a, "/tmp/a.part".to_string()));
    match core.fail(&a) {
        FailOutcome::Marked { partial } => assert_eq!(partial.as_deref(), Some("/tmp/a.part")),
        FailOutcome::Ignored => panic!("a downloading record must be markable as failed"),
    }
    let r = core.get(&a).unwrap();
    assert_eq!(r.state, DownloadState::Failed);
    assert!(r.local_path.is_none());
    assert_eq!(core.downloading_count(), 0);
    // failing a record that is not downloading is a no-op
    assert!(matches!(core.fail(&a), FailOutcome::Ignored));
}

#[test]
fn retries_are_bounded() {
    let mut core = Core::with_retry_limit(1, 10_000, 3).unwrap();
    core.discover(desc("a"));
    let a = "a".to_string();
    for _ in 0..3 {
        assert!(core.submit(&a));
        assert_eq!(core.start_next(), Some(a.clone()));
        assert!(matches!(core.fail(&a), FailOutcome::Marked { .. }));
    }
    // three attempts failed: the record is terminally Failed
    assert!(!core.submit(&a));
    assert_eq!(core.get(&a).unwrap().state, DownloadState::Failed);
    assert_eq!(core.get(&a).unwrap().attempts, 3);
}
