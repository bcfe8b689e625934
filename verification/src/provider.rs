//! Where a list comes from, and the decisions of one fetch.
//!
//! A fetch asks the provider when its content was last modified, skips the
//! download when the cached copy is at least that recent, and otherwise reads
//! the body into entries. Asking and downloading are the caller's part; what
//! follows from their answers is decided here.

use crate::cache::remembered;
use crate::ip::IP;
use crate::list::{entries_of_text, parse_list};
use crate::timestamp::Timestamp;
use vstd::prelude::*;

verus! {

/// The entries of a downloaded list and when the list was last modified.
#[derive(Debug, PartialEq, Eq)]
pub struct FetchInfo {
    pub addresses: Vec<IP>,
    pub modified: Timestamp,
}

/// How a fetch ended.
#[derive(Debug, PartialEq, Eq)]
pub enum FetchStatus {
    /// The cached copy is as recent as the provider's; nothing was downloaded.
    NotModified,
    /// The body was downloaded and read.
    Success(FetchInfo),
}

/// What a fetch does once the provider has told its modification time.
#[derive(Clone, Copy, Debug, PartialEq, Eq, Structural)]
pub enum FetchStep {
    /// Stop here: the body is not downloaded.
    NotModified,
    /// Download the body; the content counts as modified at the given time.
    Download { modified: Timestamp },
}

impl FetchInfo {
    /// No entry occurs twice and every network is canonical.
    pub open spec fn wf(self) -> bool {
        &&& self.addresses@.no_duplicates()
        &&& forall|k: int| 0 <= k < self.addresses@.len() ==> (#[trigger] self.addresses@[k]).wf()
    }
}

impl FetchStatus {
    /// The downloaded list of a successful fetch.
    pub fn unwrap(self) -> (info: FetchInfo)
        requires
            self is Success,
        ensures
            self == FetchStatus::Success(info),
    {
        match self {
            FetchStatus::Success(info) => info,
            FetchStatus::NotModified => unreached(),
        }
    }
}

/// The modification time that downloaded content is recorded with: the one
/// the provider reports, or the present where it reports none.
pub open spec fn effective_modified(reported: Option<Timestamp>, now: Timestamp) -> Timestamp {
    match reported {
        Some(modified) => modified,
        None => now,
    }
}

/// The cached time suppresses the download: there is one, and it is not before the modification.
pub open spec fn is_fresh(not_older_than: Option<Timestamp>, modified: Timestamp) -> bool {
    not_older_than matches Some(cached) && cached.not_before(modified)
}

/// The step that follows the provider's answer. Only a reported
/// modification time can suppress the download: content of unknown age is
/// always downloaded, whatever the cache holds and whatever the clock says,
/// and is recorded as modified now.
pub open spec fn fetch_step(
    not_older_than: Option<Timestamp>,
    reported: Option<Timestamp>,
    now: Timestamp,
) -> FetchStep {
    match reported {
        Some(modified) => if is_fresh(not_older_than, modified) {
            FetchStep::NotModified
        } else {
            FetchStep::Download { modified }
        },
        None => FetchStep::Download { modified: now },
    }
}

/// Decides, from the cached time and the provider's answer, whether the body
/// is downloaded. `now` is only looked at where the provider reports no
/// modification time.
pub fn begin_fetch(
    not_older_than: Option<Timestamp>,
    reported: Option<Timestamp>,
    now: Timestamp,
) -> (step: FetchStep)
    ensures
        step == fetch_step(not_older_than, reported, now),
{
    match reported {
        Some(modified) => {
            if let Some(cached) = not_older_than {
                if cached.is_not_before(&modified) {
                    return FetchStep::NotModified;
                }
            }
            FetchStep::Download { modified }
        },
        None => FetchStep::Download { modified: now },
    }
}

/// Reads a downloaded body into the result of a successful fetch.
pub fn finish_fetch(raw_list: &str, modified: Timestamp) -> (status: FetchStatus)
    ensures
        status matches FetchStatus::Success(info) && info.addresses@ == entries_of_text(raw_list@)
            && info.modified == modified && info.wf(),
{
    let addresses = parse_list(raw_list);
    FetchStatus::Success(FetchInfo { addresses, modified })
}

/// A URL whose cached time is at least the modification time that the
/// provider reports is not downloaded again, whatever else the cache holds
/// and whatever the clock says.
pub proof fn lemma_cached_copy_is_not_fetched_again(
    states: Map<Seq<char>, Timestamp>,
    url: Seq<char>,
    cached: Timestamp,
    reported: Timestamp,
    now: Timestamp,
)
    requires
        remembered(states, url) == Some(cached),
        reported.total_nanos() <= cached.total_nanos(),
    ensures
        fetch_step(remembered(states, url), Some(reported), now) == FetchStep::NotModified,
{
}

/// Content whose provider reports no modification time is always
/// downloaded, also where the cached time is the present or later.
pub proof fn lemma_unknown_age_is_always_fetched(not_older_than: Option<Timestamp>, now: Timestamp)
    ensures
        fetch_step(not_older_than, None, now) == (FetchStep::Download { modified: now }),
{
}

/// The download is skipped only where the provider reports a modification
/// time and the cached time is not before it.
pub proof fn lemma_skipped_only_when_fresh(
    not_older_than: Option<Timestamp>,
    reported: Option<Timestamp>,
    now: Timestamp,
)
    ensures
        fetch_step(not_older_than, reported, now) == FetchStep::NotModified <==> (reported matches Some(
            modified,
        ) && not_older_than matches Some(cached) && cached.not_before(modified)),
{
}

/// Without a cached time the body is always downloaded.
pub proof fn lemma_uncached_is_always_fetched(reported: Option<Timestamp>, now: Timestamp)
    ensures
        fetch_step(None, reported, now) == (FetchStep::Download {
            modified: effective_modified(reported, now),
        }),
{
}

/// The scheme and the path of a URL given as text, as the `url` crate reads
/// it; `None` for a text that is no URL.
pub uninterp spec fn url_scheme_and_path(url: Seq<char>) -> Option<(Seq<char>, Seq<char>)>;

/// Calls `Url::parse` of the `url` crate, then `scheme` and `path` on what it
/// parsed. Believed of it: the result depends on the text alone.
#[verifier::external_body]
fn split_url(url: &str) -> (r: Option<(String, String)>)
    ensures
        match r {
            Some((scheme, path)) => url_scheme_and_path(url@) == Some((scheme@, path@)),
            None => url_scheme_and_path(url@) is None,
        },
{
    match url::Url::parse(url) {
        Ok(parsed) => Some((parsed.scheme().to_string(), parsed.path().to_string())),
        Err(_) => None,
    }
}

/// The time since the Unix epoch, in seconds and nanoseconds, that a date
/// in the format of RFC 2822 denotes, as the `chrono` crate reads it; `None`
/// for a text that is no such date, and for a date before the epoch.
pub uninterp spec fn http_date_of_text(text: Seq<char>) -> Option<(u64, u32)>;

/// Calls `DateTime::parse_from_rfc2822` of the `chrono` crate and measures
/// the parsed time from `NaiveDateTime::UNIX_EPOCH` with `naive_utc`,
/// `signed_duration_since` and `to_std`. Believed of it: the result depends
/// on the text alone.
#[verifier::external_body]
#[allow(deprecated)]
fn read_http_date(text: &str) -> (r: Option<(u64, u32)>)
    ensures
        r == http_date_of_text(text@),
{
    let parsed = chrono::DateTime::parse_from_rfc2822(text).ok()?;
    let since_epoch = parsed.naive_utc().signed_duration_since(chrono::NaiveDateTime::UNIX_EPOCH);
    let elapsed = since_epoch.to_std().ok()?;
    Some((elapsed.as_secs(), elapsed.subsec_nanos()))
}

/// A list in a file of this machine.
#[derive(Debug, PartialEq, Eq)]
pub struct IPLocalSource {
    pub path: String,
}

/// A list behind a URL that is fetched over the network.
#[derive(Debug, PartialEq, Eq)]
pub struct IPRemoteSource {
    pub url: String,
}

/// The provider of a list: a local file or a remote server.
#[derive(Debug, PartialEq, Eq)]
pub enum SourceProvider {
    Local(IPLocalSource),
    Remote(IPRemoteSource),
}

/// The scheme of URLs that name a local file.
pub open spec fn file_scheme() -> Seq<char> {
    seq!['f', 'i', 'l', 'e']
}

impl IPRemoteSource {
    /// The modification time that a `Last-Modified` header tells: none
    /// without a header, and none where its value is no date.
    pub fn modified(last_modified: Option<&str>) -> (r: Option<Timestamp>)
        ensures
            r == match last_modified {
                Some(value) => match http_date_of_text(value@) {
                    Some((secs, nanos)) => Some(Timestamp { secs, nanos }),
                    None => None,
                },
                None => None,
            },
    {
        match last_modified {
            Some(value) => match read_http_date(value) {
                Some((secs, nanos)) => Some(Timestamp { secs, nanos }),
                None => None,
            },
            None => None,
        }
    }
}

impl SourceProvider {
    /// The provider for a URL whose scheme and path are known: the file at
    /// the path for the scheme `file`, else the URL itself as a remote list.
    pub fn from_parts(url: &str, scheme: &str, path: &str) -> (r: SourceProvider)
        ensures
            match r {
                SourceProvider::Local(local) => scheme@ == file_scheme() && local.path@ == path@,
                SourceProvider::Remote(remote) => scheme@ != file_scheme() && remote.url@ == url@,
            },
    {
        proof {
            reveal_strlit("file");
            assert("file"@ =~= file_scheme());
        }
        let is_file = scheme.to_owned() == "file".to_owned();
        if is_file {
            SourceProvider::Local(IPLocalSource { path: path.to_owned() })
        } else {
            SourceProvider::Remote(IPRemoteSource { url: url.to_owned() })
        }
    }

    /// The provider for a URL given as text; `None` where the text is no URL.
    pub fn new(url: &str) -> (r: Option<SourceProvider>)
        ensures
            match r {
                Some(SourceProvider::Local(local)) => {
                    &&& url_scheme_and_path(url@) matches Some((scheme, path))
                    &&& scheme == file_scheme()
                    &&& local.path@ == path
                },
                Some(SourceProvider::Remote(remote)) => {
                    &&& url_scheme_and_path(url@) matches Some((scheme, _))
                    &&& scheme != file_scheme()
                    &&& remote.url@ == url@
                },
                None => url_scheme_and_path(url@) is None,
            },
    {
        match split_url(url) {
            Some((scheme, path)) => Some(
                SourceProvider::from_parts(url, scheme.as_str(), path.as_str()),
            ),
            None => None,
        }
    }
}

} // verus!
