//! The freshness cache: for each URL, the modification time of the copy that
//! was last downloaded in full.

use crate::timestamp::Timestamp;
use vstd::hash_map::StringHashMap;
use vstd::prelude::*;

verus! {

/// Remembers, per URL, when the content fetched from it was last modified.
/// Entries are never evicted.
pub struct Cache {
    states: StringHashMap<Timestamp>,
}

impl View for Cache {
    type V = Map<Seq<char>, Timestamp>;

    closed spec fn view(&self) -> Map<Seq<char>, Timestamp> {
        self.states@
    }
}

/// What a cache with the given contents answers for a URL.
pub open spec fn remembered(states: Map<Seq<char>, Timestamp>, url: Seq<char>) -> Option<
    Timestamp,
> {
    if states.contains_key(url) {
        Some(states[url])
    } else {
        None
    }
}

impl Cache {
    /// A cache that remembers nothing.
    pub fn new() -> (r: Cache)
        ensures
            r@ == Map::<Seq<char>, Timestamp>::empty(),
    {
        Cache { states: StringHashMap::new() }
    }

    /// The time remembered for the URL, if any.
    pub fn get(&self, url: &str) -> (r: Option<Timestamp>)
        ensures
            r == remembered(self@, url@),
    {
        match self.states.get(url) {
            Some(timestamp) => Some(*timestamp),
            None => None,
        }
    }

    /// Remembers the time for the URL, in place of what was remembered for it.
    /// Other URLs keep theirs.
    pub fn set(&mut self, url: &str, timestamp: Timestamp)
        ensures
            final(self)@ == old(self)@.insert(url@, timestamp),
    {
        self.states.insert(url.to_owned(), timestamp);
    }
}

impl Default for Cache {
    fn default() -> (r: Cache)
        ensures
            r@ == Map::<Seq<char>, Timestamp>::empty(),
    {
        Cache::new()
    }
}

/// What was set for a URL is what is found for it afterwards, and setting
/// one URL leaves what is found for every other.
pub proof fn lemma_set_then_get(
    states: Map<Seq<char>, Timestamp>,
    url: Seq<char>,
    timestamp: Timestamp,
    other: Seq<char>,
)
    ensures
        remembered(states.insert(url, timestamp), url) == Some(timestamp),
        other != url ==> remembered(states.insert(url, timestamp), other) == remembered(
            states,
            other,
        ),
{
}

} // verus!
