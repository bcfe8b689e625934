//! The text of a published list: one entry per line.
//!
//! Lines end at a line feed; a carriage return directly before it belongs to
//! the line ending. A line is skipped when it is empty or starts with `#`,
//! and dropped without complaint when it is neither an address nor a network.

use crate::filter::names_entry;
use crate::ip::{after_last, lemma_canonical_is_idempotent, IpAddress, IP};
use std::collections::HashMap;
use vstd::prelude::*;

verus! {

/// What follows the last line feed of the text: the line that is still open.
pub open spec fn open_line(text: Seq<char>) -> Seq<char> {
    after_last(text, '\n')
}

/// The line without the carriage return that it ends with, if it ends with one.
pub open spec fn without_carriage_return(line: Seq<char>) -> Seq<char> {
    if line.len() > 0 && line.last() == '\r' {
        line.drop_last()
    } else {
        line
    }
}

/// The lines of the text that a line feed ends, in their order, each without its line ending.
pub open spec fn closed_lines(text: Seq<char>) -> Seq<Seq<char>>
    decreases text.len(),
{
    if text.len() == 0 {
        Seq::empty()
    } else if text.last() == '\n' {
        closed_lines(text.drop_last()).push(without_carriage_return(open_line(text.drop_last())))
    } else {
        closed_lines(text.drop_last())
    }
}

/// The lines of the text: those that a line feed ends, then what follows
/// the last line feed, unless nothing does.
pub open spec fn lines_of(text: Seq<char>) -> Seq<Seq<char>> {
    if open_line(text).len() > 0 {
        closed_lines(text).push(open_line(text))
    } else {
        closed_lines(text)
    }
}

/// The entry that a line gives: none for an empty line or a comment, else what the line denotes.
pub open spec fn line_entry(line: Seq<char>) -> Option<IP> {
    if line.len() == 0 || line[0] == '#' {
        None
    } else {
        IP::of_text(line)
    }
}

/// The entries with one more, unless there is none to add or they hold it already.
pub open spec fn with_entry(entries: Seq<IP>, entry: Option<IP>) -> Seq<IP> {
    match entry {
        Some(ip) => if entries.contains(ip) {
            entries
        } else {
            entries.push(ip)
        },
        None => entries,
    }
}

/// The entries that the lines give, each once, in the order in which they first occur.
pub open spec fn entries_of_lines(lines: Seq<Seq<char>>) -> Seq<IP>
    decreases lines.len(),
{
    if lines.len() == 0 {
        Seq::empty()
    } else {
        with_entry(entries_of_lines(lines.drop_last()), line_entry(lines.last()))
    }
}

/// The entries that a list text gives.
pub open spec fn entries_of_text(text: Seq<char>) -> Seq<IP> {
    entries_of_lines(lines_of(text))
}

/// What a text denotes is canonical.
pub proof fn lemma_text_denotes_canonical(text: Seq<char>)
    ensures
        IP::of_text(text) matches Some(ip) ==> ip.wf(),
{
    if let Some(IP::Network(net)) = IP::of_text(text) {
        let (addr, prefix_len) = crate::ip::network_of_text(text).unwrap();
        lemma_canonical_is_idempotent(addr, prefix_len);
    }
}

/// The entries of some lines are exactly what one of the lines gives; none
/// occurs twice, and each is canonical.
pub proof fn lemma_entries_of_lines(lines: Seq<Seq<char>>)
    ensures
        entries_of_lines(lines).no_duplicates(),
        forall|ip: IP| #[trigger]
            entries_of_lines(lines).contains(ip) <==> exists|i: int|
                0 <= i < lines.len() && line_entry(#[trigger] lines[i]) == Some(ip),
        forall|k: int|
            0 <= k < entries_of_lines(lines).len() ==> (#[trigger] entries_of_lines(lines)[k]).wf(),
    decreases lines.len(),
{
    if lines.len() > 0 {
        let rest = lines.drop_last();
        let before = entries_of_lines(rest);
        let after = entries_of_lines(lines);
        lemma_entries_of_lines(rest);
        lemma_text_denotes_canonical(lines.last());
        assert forall|ip: IP| #[trigger] after.contains(ip) <==> exists|i: int|
            0 <= i < lines.len() && line_entry(#[trigger] lines[i]) == Some(ip) by {
            if after.contains(ip) {
                if before.contains(ip) {
                    let i = choose|i: int|
                        0 <= i < rest.len() && line_entry(#[trigger] rest[i]) == Some(ip);
                    assert(lines[i] == rest[i]);
                } else {
                    let k = choose|k: int| 0 <= k < after.len() && after[k] == ip;
                    if k < before.len() {
                        assert(before[k] == ip);
                    }
                    assert(line_entry(lines[lines.len() - 1]) == Some(ip));
                }
            }
            if exists|i: int| 0 <= i < lines.len() && line_entry(#[trigger] lines[i]) == Some(ip) {
                let i = choose|i: int|
                    0 <= i < lines.len() && line_entry(#[trigger] lines[i]) == Some(ip);
                if i < rest.len() {
                    assert(rest[i] == lines[i]);
                    assert(before.contains(ip));
                    let k = choose|k: int| 0 <= k < before.len() && before[k] == ip;
                    assert(after[k] == ip);
                } else {
                    if !before.contains(ip) {
                        assert(after[after.len() - 1] == ip);
                    }
                }
            }
        }
        assert forall|k: int| 0 <= k < after.len() implies (#[trigger] after[k]).wf() by {
            if k < before.len() {
                assert(after[k] == before[k]);
            }
        }
        assert forall|a: int, b: int| 0 <= a < after.len() && 0 <= b < after.len() && a != b implies after[a] != after[b] by {
            if a < before.len() && b < before.len() {
                assert(after[a] == before[a] && after[b] == before[b]);
            } else if a < before.len() {
                assert(before.contains(before[a]));
            } else if b < before.len() {
                assert(before.contains(before[b]));
            }
        }
    }
}

/// The entry that one line gives.
pub fn entry_of_line(line: &Vec<char>) -> (r: Option<IP>)
    ensures
        r == line_entry(line@),
        r matches Some(ip) ==> ip.wf(),
{
    if line.len() == 0 || line[0] == '#' {
        None
    } else {
        IP::parse_chars(line)
    }
}

/// The bits of the address that an entry is written with, as a key to find the entry by.
pub open spec fn address_bits(ip: IP) -> u128 {
    match ip.address() {
        IpAddress::V4(bits) => bits as u128,
        IpAddress::V6(bits) => bits,
    }
}

/// The entries read so far, with an index that finds an entry by the bits
/// of its address, so that a large list is read without comparing every
/// entry with every other.
struct Listing {
    entries: Vec<IP>,
    index: HashMap<u128, Vec<IP>>,
}

impl Listing {
    /// The index names exactly the entries: an entry is among them where
    /// the index holds it under the bits of its address, and only there.
    spec fn indexed(&self) -> bool {
        forall|ip: IP| #[trigger]
            self.entries@.contains(ip) <==> self.index@.contains_key(address_bits(ip))
                && self.index@[address_bits(ip)]@.contains(ip)
    }

    fn new() -> (r: Listing)
        ensures
            r.indexed(),
            r.entries@ == Seq::<IP>::empty(),
    {
        Listing { entries: Vec::new(), index: HashMap::new() }
    }

    fn key_of(ip: &IP) -> (r: u128)
        ensures
            r == address_bits(*ip),
    {
        let addr = match ip {
            IP::Single(addr) => *addr,
            IP::Network(net) => net.addr,
        };
        match addr {
            IpAddress::V4(bits) => bits as u128,
            IpAddress::V6(bits) => bits,
        }
    }

    /// Adds what the line gives to the entries, unless they hold it already.
    fn take_line(&mut self, line: &Vec<char>)
        requires
            old(self).indexed(),
        ensures
            final(self).indexed(),
            final(self).entries@ == with_entry(old(self).entries@, line_entry(line@)),
    {
        broadcast use vstd::std_specs::hash::group_hash_axioms;

        if let Some(ip) = entry_of_line(line) {
            let key = Listing::key_of(&ip);
            let ghost before = self.index@;
            let ghost listed = self.entries@;
            let mut bucket = match self.index.remove(&key) {
                Some(bucket) => bucket,
                None => Vec::new(),
            };
            let ghost held = bucket@;
            assert(listed.contains(ip) <==> held.contains(ip));
            if !names_entry(&bucket, &ip) {
                bucket.push(ip);
                self.entries.push(ip);
            }
            let ghost grown = bucket@;
            self.index.insert(key, bucket);
            proof {
                assert forall|other: IP| #[trigger]
                    self.entries@.contains(other) <==> self.index@.contains_key(
                        address_bits(other),
                    ) && self.index@[address_bits(other)]@.contains(other) by {
                    let there = self.index@.contains_key(address_bits(other))
                        && self.index@[address_bits(other)]@.contains(other);
                    assert(listed.contains(other) <==> before.contains_key(address_bits(other))
                        && before[address_bits(other)]@.contains(other));
                    if self.entries@.contains(other) {
                        let k = choose|k: int|
                            0 <= k < self.entries@.len() && self.entries@[k] == other;
                        if k < listed.len() {
                            assert(listed[k] == other);
                            assert(listed.contains(other));
                            if address_bits(other) == key {
                                let j = choose|j: int| 0 <= j < held.len() && held[j] == other;
                                assert(grown[j] == other);
                            }
                        } else {
                            assert(other == ip);
                            assert(grown[grown.len() - 1] == ip);
                        }
                        assert(there);
                    }
                    if there {
                        if address_bits(other) == key {
                            let j = choose|j: int| 0 <= j < grown.len() && grown[j] == other;
                            if j < held.len() {
                                assert(held[j] == other);
                                assert(held.contains(other));
                                let k = choose|k: int|
                                    0 <= k < listed.len() && listed[k] == other;
                                assert(self.entries@[k] == other);
                            } else {
                                assert(self.entries@[self.entries@.len() - 1] == other);
                            }
                        } else {
                            let k = choose|k: int| 0 <= k < listed.len() && listed[k] == other;
                            assert(self.entries@[k] == other);
                        }
                    }
                }
            }
        }
    }
}

/// Reads the entries of a list text: each once, in the order in which they
/// first occur, networks in canonical form.
pub fn parse_list(raw: &str) -> (r: Vec<IP>)
    ensures
        r@ == entries_of_text(raw@),
        r@.no_duplicates(),
        forall|ip: IP| #[trigger]
            r@.contains(ip) <==> exists|i: int|
                0 <= i < lines_of(raw@).len() && line_entry(#[trigger] lines_of(raw@)[i]) == Some(
                    ip,
                ),
        forall|k: int| 0 <= k < r@.len() ==> (#[trigger] r@[k]).wf(),
{
    let mut listing = Listing::new();
    let mut line: Vec<char> = Vec::new();
    for c in it: raw.chars()
        invariant
            it.seq() == raw@,
            line@ == open_line(raw@.take(it.index() as int)),
            listing.indexed(),
            listing.entries@ == entries_of_lines(closed_lines(raw@.take(it.index() as int))),
    {
        proof {
            let grown = raw@.take(it.index() + 1);
            assert(grown.drop_last() =~= raw@.take(it.index() as int));
            assert(grown.last() == c);
        }
        if c == '\n' {
            if line.len() > 0 && line[line.len() - 1] == '\r' {
                line.pop();
            }
            proof {
                let closed = closed_lines(raw@.take(it.index() + 1));
                assert(closed.drop_last() =~= closed_lines(raw@.take(it.index() as int)));
                assert(closed.last() == line@);
            }
            listing.take_line(&line);
            line = Vec::new();
        } else {
            line.push(c);
        }
    }
    proof {
        assert(raw@.take(raw@.len() as int) =~= raw@);
        if line@.len() > 0 {
            assert(lines_of(raw@).drop_last() =~= closed_lines(raw@));
        }
        lemma_entries_of_lines(lines_of(raw@));
    }
    listing.take_line(&line);
    listing.entries
}

} // verus!
