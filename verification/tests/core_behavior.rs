//! Behavioral tests for the cache core: registry, playlist, configuration.

use video_cache::cache::{ConfigError, Core};
use video_cache::record::{Descriptor, Metadata};

fn desc(id: &str) -> Descriptor {
    Descriptor {
        id: id.to_string(),
        url: format!("https://example.test/{id}"),
        metadata: Metadata {
            title: format!("title of {id}"),
            author: "someone".to_string(),
            like_count: 7,
            secondary_url: None,
        },
    }
}

#[test]
fn zero_concurrency_is_rejected() {
    match Core::new(0, 1000) {
        Err(ConfigError::ZeroConcurrency) => {}
        _ => panic!("a zero worker bound must be rejected"),
    }
    assert!(Core::new(1, 0).is_ok());
}

#[test]
fn discover_lists_each_id_exactly_once() {
    let mut core = Core::new(2, 1000).unwrap();
    assert!(core.discover(desc("a")));
    assert!(core.discover(desc("b")));
    assert!(core.discover(desc("c")));
    // re-announcing a known id is a no-op
    assert!(!core.discover(desc("b")));
    let all = core.list_all();
    let ids: Vec<String> = all.iter().map(|s| s.id.clone()).collect();
    assert_eq!(ids, vec!["a".to_string(), "b".to_string(), "c".to_string()]);
    assert_eq!(all[0].url, "https://example.test/a");
    assert_eq!(all[0].title.as_deref(), Some("title of a"));
    // nothing is downloaded yet, so no local path is surfaced
    assert!(all.iter().all(|s| s.local_path.is_none()));
}

#[test]
fn new_content_consumes_on_read() {
    let mut core = Core::new(1, 1000).unwrap();
    core.discover(desc("a"));
    core.discover(desc("b"));
    let first = core.new_content();
    let ids: Vec<String> = first.iter().map(|s| s.id.clone()).collect();
    assert_eq!(ids, vec!["a".to_string(), "b".to_string()]);
    let second = core.new_content();
    assert!(second.is_empty());
}

#[test]
fn interleaved_discovery_appears_exactly_once() {
    let mut core = Core::new(1, 1000).unwrap();
    core.discover(desc("a"));
    let first = core.new_content();
    core.discover(desc("e"));
    let second = core.new_content();
    let third = core.new_content();
    let in_first = first.iter().any(|s| s.id == "e");
    let in_second = second.iter().any(|s| s.id == "e");
    let in_third = third.iter().any(|s| s.id == "e");
    assert!(!in_first);
    assert!(in_second);
    assert!(!in_third);
}

#[test]
fn get_returns_a_snapshot() {
    let mut core = Core::new(1, 1000).unwrap();
    core.discover(desc("a"));
    let r = core.get(&"a".to_string()).unwrap();
    assert_eq!(r.id, "a");
    assert_eq!(r.downloaded_bytes, 0);
    assert!(r.content_length.is_none());
    assert!(!r.downloading);
    assert!(core.get(&"missing".to_string()).is_none());
}
