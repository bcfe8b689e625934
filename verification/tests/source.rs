use hirkn::cache::Cache;
use hirkn::ip::IP;
use hirkn::list::parse_list;
use hirkn::nfset::{NfFamily, SetFlags, SetType, SetTypeValue};
use hirkn::provider::{begin_fetch, finish_fetch, FetchStatus, FetchStep};
use hirkn::source::{
    complete_download, filter_fetched, record_download, Aggregator, Completion, DownloadMode,
    Downloaded, LimitedList, SetTemplate, Source, Verdict,
};
use hirkn::timestamp::Timestamp;

fn ip(text: &str) -> IP {
    IP::parse(text).unwrap()
}

fn source(urls: &[&str], entries_limit: usize) -> Source {
    Source {
        set_name: "test_set".to_string(),
        set_template: SetTemplate::default(),
        urls: urls.iter().map(|url| url.to_string()).collect(),
        entries_limit,
    }
}

fn fetched(url: &str, entries: Vec<IP>) -> Completion {
    Completion::Fetched {
        url: url.to_string(),
        downloaded: Downloaded { entries, modified: Some(Timestamp { secs: 1000, nanos: 0 }) },
    }
}

fn batch(first_octet: u8, count: u8) -> Vec<IP> {
    (0..count).map(|last| ip(&format!("{first_octet}.0.0.{last}"))).collect()
}

#[test]
fn default_template_is_an_interval_set_of_ipv4_addresses() {
    let template = SetTemplate::default();
    assert_eq!(template.family, NfFamily::INet);
    assert!(matches!(template.set_type, SetTypeValue::Single(SetType::Ipv4Addr)));
    assert_eq!(template.policy, None);
    assert_eq!(
        template.flags,
        Some(SetFlags { constant: false, interval: true, timeout: false, dynamic: false })
    );
    assert_eq!(template.timeout, None);
    assert_eq!(template.gc_interval, None);
}

#[test]
fn one_url_is_fetched_alone() {
    assert_eq!(source(&["file:///a"], 0).download_mode(), DownloadMode::Single);
    assert_eq!(source(&[], 0).download_mode(), DownloadMode::Multiple);
    assert_eq!(source(&["file:///a", "file:///b"], 0).download_mode(), DownloadMode::Multiple);
}

#[test]
fn single_list_over_the_limit_is_cut_with_a_warning() {
    let limit = 7;
    let lines: String = (0..limit + 5).map(|n| format!("10.0.0.{n}\n")).collect();
    let entries = parse_list(&lines);
    assert_eq!(entries.len(), limit + 5);
    let limited = source(&["file:///a"], limit).apply_limit(entries.clone());
    assert_eq!(limited.entries.len(), limit);
    assert_eq!(limited.entries, entries[..limit].to_vec());
    assert_eq!(limited.truncated_from, Some(limit + 5));
}

#[test]
fn single_list_within_the_limit_is_left_alone() {
    let entries = batch(10, 5);
    assert_eq!(
        source(&["file:///a"], 5).apply_limit(entries.clone()),
        LimitedList { entries: entries.clone(), truncated_from: None }
    );
    assert_eq!(
        source(&["file:///a"], 6).apply_limit(entries.clone()),
        LimitedList { entries: entries.clone(), truncated_from: None }
    );
    assert_eq!(
        source(&["file:///a"], 4).apply_limit(entries.clone()),
        LimitedList { entries: entries[..4].to_vec(), truncated_from: Some(5) }
    );
    assert_eq!(
        source(&["file:///a"], 1).apply_limit(vec![]),
        LimitedList { entries: vec![], truncated_from: None }
    );
}

#[test]
fn limit_of_zero_means_no_limit() {
    let entries = batch(10, 200);
    assert_eq!(
        source(&["file:///a"], 0).apply_limit(entries.clone()),
        LimitedList { entries: entries.clone(), truncated_from: None }
    );
    let mut cache = Cache::new();
    let mut aggregator = source(&["file:///a", "file:///b"], 0).aggregator();
    let verdict = aggregator.accept(fetched("file:///a", batch(10, 200)), &mut cache);
    assert_eq!(verdict, Verdict::Continue);
    let verdict = aggregator.accept(fetched("file:///b", batch(11, 200)), &mut cache);
    assert_eq!(verdict, Verdict::Continue);
    let verdict = aggregator.accept(fetched("file:///c", vec![]), &mut cache);
    assert_eq!(verdict, Verdict::Continue);
    assert_eq!(aggregator.into_entries().len(), 400);
}

#[test]
fn two_full_batches_merge_to_the_limit() {
    let limit = 9;
    let mut cache = Cache::new();
    let mut aggregator = Aggregator::new(limit);
    let verdict = aggregator.accept(fetched("file:///a", batch(10, 9)), &mut cache);
    assert_eq!(verdict, Verdict::Continue);
    let verdict = aggregator.accept(fetched("file:///b", batch(11, 9)), &mut cache);
    assert_eq!(verdict, Verdict::LimitReached);
    let merged = aggregator.into_entries();
    assert!(limit <= merged.len() && merged.len() < 2 * limit);
    assert_eq!(merged, batch(10, 9));
}

#[test]
fn merged_count_overshoots_by_less_than_one_batch() {
    let mut cache = Cache::new();
    let mut aggregator = Aggregator::new(10);
    let verdict = aggregator.accept(fetched("file:///a", batch(10, 9)), &mut cache);
    assert_eq!(verdict, Verdict::Continue);
    let verdict = aggregator.accept(fetched("file:///b", batch(11, 9)), &mut cache);
    assert_eq!(verdict, Verdict::Continue);
    let verdict = aggregator.accept(fetched("file:///c", batch(12, 9)), &mut cache);
    assert_eq!(verdict, Verdict::LimitReached);
    let merged = aggregator.into_entries();
    assert_eq!(merged.len(), 18);
    let mut expected = batch(10, 9);
    expected.extend(batch(11, 9));
    assert_eq!(merged, expected);
}

#[test]
fn batches_are_merged_in_arrival_order_with_repeats() {
    let mut cache = Cache::new();
    let mut aggregator = Aggregator::new(0);
    aggregator.accept(fetched("file:///a", vec![ip("10.0.0.2"), ip("10.0.0.1")]), &mut cache);
    aggregator.accept(fetched("file:///b", vec![ip("10.0.0.1")]), &mut cache);
    assert_eq!(aggregator.into_entries(), vec![ip("10.0.0.2"), ip("10.0.0.1"), ip("10.0.0.1")]);
}

#[test]
fn failed_fetch_fails_the_source_unless_the_limit_was_reached() {
    let mut cache = Cache::new();
    let mut aggregator = Aggregator::new(5);
    assert_eq!(aggregator.accept(Completion::FetchFailed, &mut cache), Verdict::Failed);
    let verdict = aggregator.accept(fetched("file:///a", batch(10, 5)), &mut cache);
    assert_eq!(verdict, Verdict::Continue);
    assert_eq!(aggregator.accept(Completion::FetchFailed, &mut cache), Verdict::LimitReached);
    assert_eq!(aggregator.accept(Completion::JoinFailed, &mut cache), Verdict::Failed);
    assert_eq!(aggregator.into_entries(), batch(10, 5));
}

#[test]
fn merged_download_is_recorded_and_dropped_one_is_not() {
    let mut cache = Cache::new();
    let mut aggregator = Aggregator::new(3);
    let verdict = aggregator.accept(fetched("file:///a", batch(10, 3)), &mut cache);
    assert_eq!(verdict, Verdict::Continue);
    assert_eq!(cache.get("file:///a"), Some(Timestamp { secs: 1000, nanos: 0 }));
    let verdict = aggregator.accept(fetched("file:///b", batch(11, 3)), &mut cache);
    assert_eq!(verdict, Verdict::LimitReached);
    assert_eq!(cache.get("file:///b"), None);
    assert_eq!(cache.get("file:///a"), Some(Timestamp { secs: 1000, nanos: 0 }));
    assert_eq!(aggregator.into_entries(), batch(10, 3));
}

#[test]
fn failed_completions_leave_the_cache_alone() {
    let mut cache = Cache::new();
    cache.set("file:///a", Timestamp { secs: 5, nanos: 0 });
    let mut aggregator = Aggregator::new(0);
    aggregator.accept(Completion::FetchFailed, &mut cache);
    aggregator.accept(Completion::JoinFailed, &mut cache);
    assert_eq!(cache.get("file:///a"), Some(Timestamp { secs: 5, nanos: 0 }));
    assert_eq!(aggregator.into_entries(), vec![]);
}

#[test]
fn unmodified_download_is_merged_without_a_record() {
    let mut cache = Cache::new();
    cache.set("file:///a", Timestamp { secs: 5, nanos: 0 });
    let mut aggregator = Aggregator::new(0);
    let unmodified = Completion::Fetched {
        url: "file:///a".to_string(),
        downloaded: filter_fetched(FetchStatus::NotModified, &vec![ip("10.0.0.0/8")]),
    };
    assert_eq!(aggregator.accept(unmodified, &mut cache), Verdict::Continue);
    assert_eq!(cache.get("file:///a"), Some(Timestamp { secs: 5, nanos: 0 }));
    assert_eq!(aggregator.into_entries(), vec![]);
}

#[test]
fn filtering_a_fetch_writes_nothing_until_it_is_recorded() {
    let mut cache = Cache::new();
    let modified = Timestamp { secs: 1000, nanos: 7 };
    let status = finish_fetch("10.0.0.1\n11.0.0.1\n", modified);
    let downloaded = filter_fetched(status, &vec![ip("10.0.0.0/8")]);
    assert_eq!(
        downloaded,
        Downloaded { entries: vec![ip("11.0.0.1")], modified: Some(modified) }
    );
    assert_eq!(cache.get("file:///a"), None);
    let entries = record_download(&mut cache, "file:///a", downloaded);
    assert_eq!(entries, vec![ip("11.0.0.1")]);
    assert_eq!(cache.get("file:///a"), Some(modified));
    assert_eq!(
        filter_fetched(FetchStatus::NotModified, &vec![]),
        Downloaded { entries: vec![], modified: None }
    );
}

#[test]
fn successful_download_is_recorded_and_filtered() {
    let mut cache = Cache::new();
    let url = "https://example.com/list.txt";
    let modified = Timestamp { secs: 1000, nanos: 0 };
    let status = finish_fetch("10.0.0.1\n11.0.0.1\n10.2.0.0/16\n", modified);
    let entries = complete_download(&mut cache, url, status, &vec![ip("10.0.0.0/8")]);
    assert_eq!(entries, vec![ip("11.0.0.1")]);
    assert_eq!(cache.get(url), Some(modified));
    assert_eq!(cache.get("https://example.com/other.txt"), None);
}

#[test]
fn unmodified_download_gives_nothing_and_records_nothing() {
    let mut cache = Cache::new();
    let url = "https://example.com/list.txt";
    cache.set(url, Timestamp { secs: 1000, nanos: 0 });
    let entries = complete_download(&mut cache, url, FetchStatus::NotModified, &vec![]);
    assert_eq!(entries, vec![]);
    assert_eq!(cache.get(url), Some(Timestamp { secs: 1000, nanos: 0 }));
}

#[test]
fn second_fetch_of_an_unchanged_url_is_not_modified() {
    let mut cache = Cache::new();
    let url = "file:///tmp/list.txt";
    let reported = Some(Timestamp { secs: 1000, nanos: 500 });
    let now = Timestamp { secs: 2000, nanos: 0 };

    let step = begin_fetch(cache.get(url), reported, now);
    let FetchStep::Download { modified } = step else { panic!("{step:?}") };
    let first = complete_download(&mut cache, url, finish_fetch("10.0.0.1\n", modified), &vec![]);
    assert_eq!(first, vec![ip("10.0.0.1")]);

    assert_eq!(begin_fetch(cache.get(url), reported, now), FetchStep::NotModified);
    assert_eq!(
        begin_fetch(cache.get(url), Some(Timestamp { secs: 1000, nanos: 501 }), now),
        FetchStep::Download { modified: Timestamp { secs: 1000, nanos: 501 } }
    );
}
