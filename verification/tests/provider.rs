use hirkn::cache::Cache;
use hirkn::ip::IP;
use hirkn::provider::{
    begin_fetch, finish_fetch, FetchInfo, FetchStatus, FetchStep, IPLocalSource, IPRemoteSource,
    SourceProvider,
};
use hirkn::timestamp::Timestamp;

fn at(secs: u64) -> Timestamp {
    Timestamp { secs, nanos: 0 }
}

#[test]
fn cached_time_not_before_modification_skips_the_download() {
    let mut cache = Cache::new();
    cache.set("https://example.com/list.txt", at(1000));
    let cached = cache.get("https://example.com/list.txt");
    assert_eq!(cached, Some(at(1000)));
    assert_eq!(begin_fetch(cached, Some(at(1000)), at(5000)), FetchStep::NotModified);
    assert_eq!(begin_fetch(cached, Some(at(999)), at(5000)), FetchStep::NotModified);
    assert_eq!(begin_fetch(cached, Some(at(0)), at(5000)), FetchStep::NotModified);
}

#[test]
fn newer_modification_is_downloaded() {
    assert_eq!(
        begin_fetch(Some(at(1000)), Some(at(1001)), at(5000)),
        FetchStep::Download { modified: at(1001) }
    );
    assert_eq!(
        begin_fetch(
            Some(Timestamp { secs: 1000, nanos: 1 }),
            Some(Timestamp { secs: 1000, nanos: 2 }),
            at(5000)
        ),
        FetchStep::Download { modified: Timestamp { secs: 1000, nanos: 2 } }
    );
    assert_eq!(
        begin_fetch(
            Some(Timestamp { secs: 1000, nanos: 2 }),
            Some(Timestamp { secs: 1000, nanos: 1 }),
            at(5000)
        ),
        FetchStep::NotModified
    );
}

#[test]
fn uncached_url_is_always_downloaded() {
    assert_eq!(begin_fetch(None, Some(at(0)), at(5000)), FetchStep::Download { modified: at(0) });
    assert_eq!(begin_fetch(None, None, at(5000)), FetchStep::Download { modified: at(5000) });
}

#[test]
fn unknown_modification_time_is_always_downloaded() {
    assert_eq!(
        begin_fetch(Some(at(1000)), None, at(5000)),
        FetchStep::Download { modified: at(5000) }
    );
    assert_eq!(
        begin_fetch(Some(at(5000)), None, at(5000)),
        FetchStep::Download { modified: at(5000) }
    );
    assert_eq!(
        begin_fetch(Some(at(9000)), None, at(5000)),
        FetchStep::Download { modified: at(5000) }
    );
    assert_eq!(
        begin_fetch(Some(Timestamp { secs: u64::MAX, nanos: u32::MAX }), None, at(0)),
        FetchStep::Download { modified: at(0) }
    );
}

#[test]
fn timestamps_are_ordered_by_seconds_then_nanoseconds() {
    let early = Timestamp { secs: 1, nanos: 999_999_999 };
    let late = Timestamp { secs: 2, nanos: 0 };
    assert!(late.is_not_before(&early));
    assert!(!early.is_not_before(&late));
    assert!(early.is_not_before(&early));
    let huge = Timestamp { secs: u64::MAX, nanos: u32::MAX };
    assert!(huge.is_not_before(&late));
    assert!(!late.is_not_before(&huge));
    let carried = Timestamp { secs: 1, nanos: 1_000_000_000 };
    assert!(carried.is_not_before(&late));
    assert!(late.is_not_before(&carried));
}

#[test]
fn finish_fetch_reads_the_body() {
    let status = finish_fetch("10.0.0.1\n10.0.0.5/8\n10.0.0.1\n", at(77));
    assert_eq!(
        status,
        FetchStatus::Success(FetchInfo {
            addresses: vec![IP::parse("10.0.0.1").unwrap(), IP::parse("10.0.0.0/8").unwrap()],
            modified: at(77),
        })
    );
    let info = status.unwrap();
    assert_eq!(info.addresses.len(), 2);
    assert_eq!(info.modified, at(77));
}

#[test]
fn finish_fetch_of_an_empty_body_succeeds_without_entries() {
    assert_eq!(
        finish_fetch("", at(1)),
        FetchStatus::Success(FetchInfo { addresses: vec![], modified: at(1) })
    );
}

#[test]
fn cache_keeps_one_time_per_url() {
    let mut cache = Cache::default();
    assert_eq!(cache.get("a"), None);
    cache.set("a", at(1));
    cache.set("b", at(2));
    assert_eq!(cache.get("a"), Some(at(1)));
    assert_eq!(cache.get("b"), Some(at(2)));
    cache.set("a", at(3));
    assert_eq!(cache.get("a"), Some(at(3)));
    assert_eq!(cache.get("b"), Some(at(2)));
    assert_eq!(cache.get("c"), None);
    assert_eq!(cache.get(""), None);
}

#[test]
fn file_urls_are_local() {
    assert_eq!(
        SourceProvider::new("file:///tmp/list.txt"),
        Some(SourceProvider::Local(IPLocalSource { path: "/tmp/list.txt".to_string() }))
    );
    assert_eq!(
        SourceProvider::new("FILE:///etc/blocked%20ips.txt"),
        Some(SourceProvider::Local(IPLocalSource { path: "/etc/blocked%20ips.txt".to_string() }))
    );
}

#[test]
fn other_urls_are_remote() {
    assert_eq!(
        SourceProvider::new("https://example.com/list.txt?x=1"),
        Some(SourceProvider::Remote(IPRemoteSource {
            url: "https://example.com/list.txt?x=1".to_string()
        }))
    );
    assert_eq!(
        SourceProvider::new("http://example.com"),
        Some(SourceProvider::Remote(IPRemoteSource { url: "http://example.com".to_string() }))
    );
    assert_eq!(
        SourceProvider::new("files:///tmp/list.txt"),
        Some(SourceProvider::Remote(IPRemoteSource { url: "files:///tmp/list.txt".to_string() }))
    );
}

#[test]
fn text_that_is_no_url_has_no_provider() {
    assert_eq!(SourceProvider::new(""), None);
    assert_eq!(SourceProvider::new("/tmp/list.txt"), None);
    assert_eq!(SourceProvider::new("example.com/list.txt"), None);
    assert_eq!(SourceProvider::new("http://"), None);
}

#[test]
fn provider_from_parts_goes_by_the_scheme() {
    assert_eq!(
        SourceProvider::from_parts("file:///a/b", "file", "/a/b"),
        SourceProvider::Local(IPLocalSource { path: "/a/b".to_string() })
    );
    assert_eq!(
        SourceProvider::from_parts("ftp://host/a/b", "ftp", "/a/b"),
        SourceProvider::Remote(IPRemoteSource { url: "ftp://host/a/b".to_string() })
    );
    assert_eq!(
        SourceProvider::from_parts("x", "", "/a/b"),
        SourceProvider::Remote(IPRemoteSource { url: "x".to_string() })
    );
}

#[test]
fn last_modified_header_is_read_as_seconds_since_the_epoch() {
    assert_eq!(
        IPRemoteSource::modified(Some("Wed, 18 Feb 2015 23:16:09 GMT")),
        Some(at(1424301369))
    );
    assert_eq!(IPRemoteSource::modified(Some("Thu, 01 Jan 1970 00:00:00 GMT")), Some(at(0)));
    assert_eq!(
        IPRemoteSource::modified(Some("Thu, 01 Jan 1970 01:00:00 +0100")),
        Some(at(0))
    );
    assert_eq!(
        IPRemoteSource::modified(Some("Wed, 21 Oct 2015 07:28:00 GMT")),
        Some(at(1445412480))
    );
}

#[test]
fn missing_or_unreadable_header_gives_no_time() {
    assert_eq!(IPRemoteSource::modified(None), None);
    assert_eq!(IPRemoteSource::modified(Some("")), None);
    assert_eq!(IPRemoteSource::modified(Some("yesterday")), None);
    assert_eq!(IPRemoteSource::modified(Some("2015-02-18T23:16:09Z")), None);
    assert_eq!(IPRemoteSource::modified(Some("Wed, 31 Dec 1969 23:59:59 GMT")), None);
}
