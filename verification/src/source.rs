//! A source: a named firewall set and the URLs whose lists fill it.
//!
//! One URL is fetched alone and cut to the entry limit. Several URLs are
//! fetched side by side; their lists are merged as the fetches complete,
//! until the limit is reached and the fetches still running are abandoned.

use crate::cache::{remembered, Cache};
use crate::filter::{kept, perform_filtering};
use crate::ip::IP;
use crate::nfset::{NfFamily, SetFlags, SetPolicy, SetType, SetTypeValue};
use crate::provider::FetchStatus;
use crate::timestamp::Timestamp;
use vstd::prelude::*;

verus! {

/// The attributes that a set is declared with, apart from its elements.
#[derive(Debug)]
pub struct SetTemplate {
    pub family: NfFamily,
    pub set_type: SetTypeValue,
    pub policy: Option<SetPolicy>,
    pub flags: Option<SetFlags>,
    pub timeout: Option<u32>,
    pub gc_interval: Option<u32>,
}

impl Default for SetTemplate {
    /// A set of IPv4 addresses for tables of the `inet` family, holding intervals.
    fn default() -> (r: SetTemplate)
        ensures
            r.family == NfFamily::INet,
            r.set_type matches SetTypeValue::Single(SetType::Ipv4Addr),
            r.policy is None,
            r.flags == Some(
                SetFlags { constant: false, interval: true, timeout: false, dynamic: false },
            ),
            r.timeout is None,
            r.gc_interval is None,
    {
        SetTemplate {
            family: NfFamily::INet,
            set_type: SetTypeValue::Single(SetType::Ipv4Addr),
            policy: None,
            flags: Some(SetFlags { constant: false, interval: true, timeout: false, dynamic: false }),
            timeout: None,
            gc_interval: None,
        }
    }
}

/// A feed of addresses for one firewall set.
#[derive(Debug)]
pub struct Source {
    pub set_name: String,
    pub set_template: SetTemplate,
    pub urls: Vec<String>,
    /// The most entries that the set should get; 0 for no limit.
    pub entries_limit: usize,
}

/// How the URLs of a source are fetched.
#[derive(Clone, Copy, Debug, PartialEq, Eq, Structural)]
pub enum DownloadMode {
    /// The one URL is fetched directly.
    Single,
    /// One fetch per URL, all at once. This is also the mode of a source without URLs.
    Multiple,
}

/// The entries of a single list after the limit was applied, and whether entries were cut off.
#[derive(Debug, PartialEq, Eq)]
pub struct LimitedList {
    pub entries: Vec<IP>,
    /// The number of entries before the cut, where there was one.
    pub truncated_from: Option<usize>,
}

/// What the fetch of one URL gave, filtered but not yet recorded in the cache.
#[derive(Debug, PartialEq, Eq)]
pub struct Downloaded {
    /// The entries that the exclusion list left; none where nothing was modified.
    pub entries: Vec<IP>,
    /// When the downloaded content was modified; `None` where nothing was
    /// modified and so nothing was downloaded.
    pub modified: Option<Timestamp>,
}

/// How the fetch of one URL of several ended.
#[derive(Debug)]
pub enum Completion {
    /// The task of the fetch did not run to its end.
    JoinFailed,
    /// The fetch itself failed.
    FetchFailed,
    /// The fetch of this URL ran to its end and gave this.
    Fetched { url: String, downloaded: Downloaded },
}

/// What follows one completed fetch of several.
#[derive(Clone, Copy, Debug, PartialEq, Eq, Structural)]
pub enum Verdict {
    /// The batch was merged; wait for the next fetch.
    Continue,
    /// The limit was reached before this fetch completed: its batch is
    /// dropped unrecorded, the fetches still running are abandoned, and the
    /// merged entries stand.
    LimitReached,
    /// The update of this source is given up.
    Failed,
}

/// The limit is set and the count has reached it.
pub open spec fn limit_reached(entries_limit: usize, count: nat) -> bool {
    entries_limit != 0 && count >= entries_limit
}

/// The merged entries after one more completed fetch.
pub open spec fn merge_step(entries_limit: usize, merged: Seq<IP>, batch: Seq<IP>) -> Seq<IP> {
    if limit_reached(entries_limit, merged.len()) {
        merged
    } else {
        merged + batch
    }
}

/// What the cache holds once a download is recorded in it: the
/// modification time under the URL where content was downloaded, else what
/// it held.
pub open spec fn recorded(
    states: Map<Seq<char>, Timestamp>,
    url: Seq<char>,
    modified: Option<Timestamp>,
) -> Map<Seq<char>, Timestamp> {
    match modified {
        Some(timestamp) => states.insert(url, timestamp),
        None => states,
    }
}

/// What the cache holds after one more completed fetch: the download is
/// recorded exactly where its batch is merged.
pub open spec fn record_step(
    entries_limit: usize,
    merged: Seq<IP>,
    states: Map<Seq<char>, Timestamp>,
    url: Seq<char>,
    modified: Option<Timestamp>,
) -> Map<Seq<char>, Timestamp> {
    if limit_reached(entries_limit, merged.len()) {
        states
    } else {
        recorded(states, url, modified)
    }
}

/// The merged entries after the given batches have arrived in the given
/// order: each is appended, unless the limit was reached before it arrived.
pub open spec fn merged_batches(entries_limit: usize, batches: Seq<Seq<IP>>) -> Seq<IP>
    decreases batches.len(),
{
    if batches.len() == 0 {
        Seq::empty()
    } else {
        merge_step(entries_limit, merged_batches(entries_limit, batches.drop_last()), batches.last())
    }
}

/// The first `entries_limit` entries where the limit is set and exceeded, else all of them.
pub open spec fn limited(entries_limit: usize, entries: Seq<IP>) -> Seq<IP> {
    if entries_limit != 0 && entries.len() > entries_limit {
        entries.take(entries_limit as int)
    } else {
        entries
    }
}

/// Merges the lists of several URLs as their fetches complete.
pub struct Aggregator {
    entries_limit: usize,
    entries: Vec<IP>,
}

impl View for Aggregator {
    type V = Seq<IP>;

    closed spec fn view(&self) -> Seq<IP> {
        self.entries@
    }
}

impl Aggregator {
    /// The limit that the merging stops at; 0 for none.
    pub closed spec fn limit(&self) -> usize {
        self.entries_limit
    }

    /// An aggregator that has merged nothing yet.
    pub fn new(entries_limit: usize) -> (r: Aggregator)
        ensures
            r@ == Seq::<IP>::empty(),
            r.limit() == entries_limit,
    {
        Aggregator { entries_limit, entries: Vec::new() }
    }

    /// Takes the outcome of the fetch that completed next. A task that did
    /// not finish fails the source at once. Else, where the entries merged so
    /// far have reached the limit, the outcome is dropped unseen, failed or
    /// not, and the cache is left alone. Else a failed fetch fails the source,
    /// and a download is first recorded in the cache and then appended.
    pub fn accept(&mut self, completion: Completion, sources_cache: &mut Cache) -> (verdict:
        Verdict)
        ensures
            final(self).limit() == old(self).limit(),
            verdict == match completion {
                Completion::JoinFailed => Verdict::Failed,
                _ => if limit_reached(old(self).limit(), old(self)@.len()) {
                    Verdict::LimitReached
                } else if completion is FetchFailed {
                    Verdict::Failed
                } else {
                    Verdict::Continue
                },
            },
            final(self)@ == match completion {
                Completion::Fetched { url, downloaded } => merge_step(
                    old(self).limit(),
                    old(self)@,
                    downloaded.entries@,
                ),
                _ => old(self)@,
            },
            final(sources_cache)@ == match completion {
                Completion::Fetched { url, downloaded } => record_step(
                    old(self).limit(),
                    old(self)@,
                    old(sources_cache)@,
                    url@,
                    downloaded.modified,
                ),
                _ => old(sources_cache)@,
            },
    {
        if let Completion::JoinFailed = completion {
            return Verdict::Failed;
        }
        if self.entries_limit != 0 && self.entries.len() >= self.entries_limit {
            return Verdict::LimitReached;
        }
        match completion {
            Completion::Fetched { url, downloaded } => {
                let mut batch = record_download(sources_cache, url.as_str(), downloaded);
                self.entries.append(&mut batch);
                Verdict::Continue
            },
            _ => Verdict::Failed,
        }
    }

    /// The merged entries, in the order in which their batches arrived.
    pub fn into_entries(self) -> (r: Vec<IP>)
        ensures
            r@ == self@,
    {
        self.entries
    }
}

impl Source {
    /// How the URLs are fetched: alone where there is exactly one.
    pub fn download_mode(&self) -> (r: DownloadMode)
        ensures
            r == if self.urls@.len() == 1 {
                DownloadMode::Single
            } else {
                DownloadMode::Multiple
            },
    {
        if self.urls.len() == 1 {
            DownloadMode::Single
        } else {
            DownloadMode::Multiple
        }
    }

    /// Cuts the list of a single URL to the entry limit. The entries that
    /// stay are the first ones, in their order; where some were cut off, the
    /// count before the cut is reported.
    pub fn apply_limit(&self, entries: Vec<IP>) -> (r: LimitedList)
        ensures
            r.entries@ == limited(self.entries_limit, entries@),
            r.truncated_from == if self.entries_limit != 0 && entries@.len() > self.entries_limit {
                Some(entries@.len() as usize)
            } else {
                None::<usize>
            },
    {
        let mut entries = entries;
        if self.entries_limit != 0 && entries.len() > self.entries_limit {
            let got = entries.len();
            entries.truncate(self.entries_limit);
            LimitedList { entries, truncated_from: Some(got) }
        } else {
            LimitedList { entries, truncated_from: None }
        }
    }

    /// An aggregator for the URLs of this source.
    pub fn aggregator(&self) -> (r: Aggregator)
        ensures
            r@ == Seq::<IP>::empty(),
            r.limit() == self.entries_limit,
    {
        Aggregator::new(self.entries_limit)
    }
}

/// Filters what a fetch gave. This touches no cache, so a fetch task may
/// do it and still be abandoned without a trace.
pub fn filter_fetched(status: FetchStatus, excluded: &Vec<IP>) -> (downloaded: Downloaded)
    ensures
        match status {
            FetchStatus::NotModified => {
                &&& downloaded.entries@ == Seq::<IP>::empty()
                &&& downloaded.modified is None
            },
            FetchStatus::Success(info) => {
                &&& downloaded.entries@ == kept(info.addresses@, excluded@)
                &&& downloaded.modified == Some(info.modified)
            },
        },
{
    match status {
        FetchStatus::NotModified => Downloaded { entries: Vec::new(), modified: None },
        FetchStatus::Success(info) => Downloaded {
            entries: perform_filtering(info.addresses, excluded),
            modified: Some(info.modified),
        },
    }
}

/// Records a download in the cache and hands out its entries. Where
/// nothing was modified the cache is left as it is.
pub fn record_download(sources_cache: &mut Cache, url: &str, downloaded: Downloaded) -> (entries:
    Vec<IP>)
    ensures
        entries@ == downloaded.entries@,
        final(sources_cache)@ == recorded(old(sources_cache)@, url@, downloaded.modified),
{
    if let Some(modified) = downloaded.modified {
        sources_cache.set(url, modified);
    }
    downloaded.entries
}

/// Takes the result of one URL's fetch: a successful one is recorded in the
/// cache and its entries are filtered; one that found nothing modified gives
/// no entries and leaves the cache as it is.
pub fn complete_download(
    sources_cache: &mut Cache,
    url: &str,
    status: FetchStatus,
    excluded: &Vec<IP>,
) -> (entries: Vec<IP>)
    ensures
        match status {
            FetchStatus::NotModified => {
                &&& entries@ == Seq::<IP>::empty()
                &&& final(sources_cache)@ == old(sources_cache)@
            },
            FetchStatus::Success(info) => {
                &&& entries@ == kept(info.addresses@, excluded@)
                &&& final(sources_cache)@ == old(sources_cache)@.insert(url@, info.modified)
            },
        },
{
    let downloaded = filter_fetched(status, excluded);
    record_download(sources_cache, url, downloaded)
}

/// A download that completes after the limit was reached changes neither
/// the merged entries nor the cache: what is dropped is never recorded, so
/// that it is fetched again next time.
pub proof fn lemma_dropped_download_is_not_recorded(
    entries_limit: usize,
    merged: Seq<IP>,
    states: Map<Seq<char>, Timestamp>,
    url: Seq<char>,
    batch: Seq<IP>,
    modified: Option<Timestamp>,
)
    requires
        limit_reached(entries_limit, merged.len()),
    ensures
        merge_step(entries_limit, merged, batch) == merged,
        record_step(entries_limit, merged, states, url, modified) == states,
{
}

/// A download that is merged is recorded: afterwards the cache answers for
/// its URL with the time at which the content was modified.
pub proof fn lemma_merged_download_is_recorded(
    entries_limit: usize,
    merged: Seq<IP>,
    states: Map<Seq<char>, Timestamp>,
    url: Seq<char>,
    batch: Seq<IP>,
    modified: Timestamp,
)
    requires
        !limit_reached(entries_limit, merged.len()),
    ensures
        merge_step(entries_limit, merged, batch) == merged + batch,
        remembered(record_step(entries_limit, merged, states, url, Some(modified)), url) == Some(
            modified,
        ),
{
}

/// A single list with more entries than the limit is cut to exactly the limit.
pub proof fn lemma_limited_list_has_limit_entries(entries_limit: usize, entries: Seq<IP>)
    requires
        entries_limit != 0,
        entries.len() > entries_limit,
    ensures
        limited(entries_limit, entries).len() == entries_limit,
        limited(entries_limit, entries) == entries.take(entries_limit as int),
{
}

/// With a limit of 0 nothing is ever cut off or dropped.
pub proof fn lemma_no_limit_keeps_everything(entries: Seq<IP>, merged: Seq<IP>, batch: Seq<IP>)
    ensures
        limited(0, entries) == entries,
        merge_step(0, merged, batch) == merged + batch,
{
}

/// Two URLs that each give as many entries as the limit allows: whichever
/// fetch completes first is merged and the other is dropped, so the merged
/// count is the limit itself, which is at least the limit and below twice
/// the limit.
pub proof fn lemma_two_full_batches_stay_bounded(entries_limit: usize, first: Seq<IP>, second: Seq<IP>)
    requires
        entries_limit != 0,
        first.len() == entries_limit,
        second.len() == entries_limit,
    ensures
        merged_batches(entries_limit, seq![first, second]) == first,
        entries_limit <= merged_batches(entries_limit, seq![first, second]).len() < 2 * entries_limit,
{
    let both = seq![first, second];
    assert(both.drop_last() =~= seq![first]);
    assert(seq![first].drop_last() =~= Seq::<Seq<IP>>::empty());
    assert(merged_batches(entries_limit, Seq::<Seq<IP>>::empty()) =~= Seq::<IP>::empty());
    assert(merged_batches(entries_limit, seq![first]) =~= first);
}

/// The merged entries overshoot the limit by less than one batch: with a
/// limit set and no batch longer than `longest`, fewer than the limit plus
/// `longest` entries are merged, however many URLs there are.
pub proof fn lemma_merged_count_is_bounded(
    entries_limit: usize,
    batches: Seq<Seq<IP>>,
    longest: nat,
)
    requires
        entries_limit != 0,
        forall|i: int| 0 <= i < batches.len() ==> (#[trigger] batches[i]).len() <= longest,
    ensures
        merged_batches(entries_limit, batches).len() < entries_limit + longest,
    decreases batches.len(),
{
    if batches.len() > 0 {
        let rest = batches.drop_last();
        assert forall|i: int| 0 <= i < rest.len() implies (#[trigger] rest[i]).len() <= longest by {
            assert(rest[i] == batches[i]);
        }
        lemma_merged_count_is_bounded(entries_limit, rest, longest);
        assert(batches[batches.len() - 1].len() <= longest);
    }
}

} // verus!
