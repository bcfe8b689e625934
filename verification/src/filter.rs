//! Removal of excluded entries from a downloaded list.
//!
//! An entry is excluded when the exclusion list names it exactly, or when a
//! network of the exclusion list holds it. Networks only hold entries of
//! their own family.

use crate::ip::{IpNetwork, IP};
use vstd::prelude::*;

verus! {

/// Some network of the exclusion list holds the entry.
pub open spec fn in_excluded_network(ip: IP, excluded: Seq<IP>) -> bool {
    exists|net: IpNetwork| #[trigger] excluded.contains(IP::Network(net)) && ip.within(net)
}

/// The exclusion list removes the entry: it names it, or one of its networks holds it.
pub open spec fn is_excluded(ip: IP, excluded: Seq<IP>) -> bool {
    excluded.contains(ip) || in_excluded_network(ip, excluded)
}

/// The test that an entry is not named by the exclusion list.
pub open spec fn not_named(excluded: Seq<IP>) -> spec_fn(IP) -> bool {
    |ip: IP| !excluded.contains(ip)
}

/// The test that no network of the exclusion list holds an entry.
pub open spec fn not_contained(excluded: Seq<IP>) -> spec_fn(IP) -> bool {
    |ip: IP| !in_excluded_network(ip, excluded)
}

/// The test that an entry survives the exclusion list.
pub open spec fn survives(excluded: Seq<IP>) -> spec_fn(IP) -> bool {
    |ip: IP| !is_excluded(ip, excluded)
}

/// The entries of `original` that the exclusion list leaves, in their order.
pub open spec fn kept(original: Seq<IP>, excluded: Seq<IP>) -> Seq<IP> {
    original.filter(survives(excluded))
}

/// The networks among the entries, in their order.
pub open spec fn networks_of(entries: Seq<IP>) -> Seq<IpNetwork> {
    entries.filter_map(
        |ip: IP|
            match ip {
                IP::Single(_) => None,
                IP::Network(net) => Some(net),
            },
    )
}

proof fn lemma_filter_step<A>(s: Seq<A>, i: int, pred: spec_fn(A) -> bool)
    requires
        0 <= i < s.len(),
    ensures
        s.take(i + 1).filter(pred) == if pred(s[i]) {
            s.take(i).filter(pred).push(s[i])
        } else {
            s.take(i).filter(pred)
        },
{
    reveal(Seq::filter);
    assert(s.take(i + 1).drop_last() =~= s.take(i));
}

proof fn lemma_filter_members<A>(s: Seq<A>, pred: spec_fn(A) -> bool)
    ensures
        forall|x: A| #[trigger] s.filter(pred).contains(x) <==> s.contains(x) && pred(x),
        s.no_duplicates() ==> s.filter(pred).no_duplicates(),
    decreases s.len(),
{
    reveal(Seq::filter);
    if s.len() > 0 {
        let rest = s.drop_last();
        lemma_filter_members(rest, pred);
        let out = s.filter(pred);
        assert forall|x: A| #[trigger] out.contains(x) <==> s.contains(x) && pred(x) by {
            if out.contains(x) {
                let k = choose|k: int| 0 <= k < out.len() && out[k] == x;
                if pred(s.last()) && k == out.len() - 1 {
                    assert(s[s.len() - 1] == x);
                } else {
                    assert(rest.filter(pred)[k] == x);
                    assert(rest.filter(pred).contains(x));
                    let j = choose|j: int| 0 <= j < rest.len() && rest[j] == x;
                    assert(s[j] == x);
                }
            }
            if s.contains(x) && pred(x) {
                let j = choose|j: int| 0 <= j < s.len() && s[j] == x;
                if j == s.len() - 1 {
                    assert(out[out.len() - 1] == x);
                } else {
                    assert(rest[j] == x);
                    assert(rest.filter(pred).contains(x));
                    let k = choose|k: int| 0 <= k < rest.filter(pred).len() && rest.filter(pred)[k] == x;
                    assert(out[k] == x);
                }
            }
        }
        if s.no_duplicates() {
            assert(rest.no_duplicates());
            if pred(s.last()) {
                if rest.filter(pred).contains(s.last()) {
                    let j = choose|j: int| 0 <= j < rest.len() && rest[j] == s.last();
                    assert(s[j] == s[s.len() - 1]);
                }
                assert forall|a: int, b: int| 0 <= a < out.len() && 0 <= b < out.len() && a != b implies out[a] != out[b] by {
                    if a == out.len() - 1 {
                        assert(rest.filter(pred)[b] == out[b]);
                    } else if b == out.len() - 1 {
                        assert(rest.filter(pred)[a] == out[a]);
                    }
                }
            }
        }
    }
}

proof fn lemma_filter_of_passing<A>(s: Seq<A>, pred: spec_fn(A) -> bool)
    requires
        forall|i: int| 0 <= i < s.len() ==> pred(#[trigger] s[i]),
    ensures
        s.filter(pred) == s,
    decreases s.len(),
{
    reveal(Seq::filter);
    if s.len() > 0 {
        let rest = s.drop_last();
        assert forall|i: int| 0 <= i < rest.len() implies pred(#[trigger] rest[i]) by {
            assert(rest[i] == s[i]);
        }
        lemma_filter_of_passing(rest, pred);
        assert(rest.push(s.last()) =~= s);
    }
}

proof fn lemma_filter_twice<A>(
    s: Seq<A>,
    first: spec_fn(A) -> bool,
    second: spec_fn(A) -> bool,
    both: spec_fn(A) -> bool,
)
    requires
        forall|x: A| #[trigger] both(x) == (first(x) && second(x)),
    ensures
        s.filter(first).filter(second) == s.filter(both),
    decreases s.len(),
{
    reveal(Seq::filter);
    if s.len() > 0 {
        let rest = s.drop_last();
        lemma_filter_twice(rest, first, second, both);
        if first(s.last()) {
            let inner = rest.filter(first).push(s.last());
            assert(inner.drop_last() =~= rest.filter(first));
        }
    }
}

proof fn lemma_filter_same_test<A>(s: Seq<A>, first: spec_fn(A) -> bool, second: spec_fn(A) -> bool)
    requires
        forall|i: int| 0 <= i < s.len() ==> first(#[trigger] s[i]) == second(s[i]),
    ensures
        s.filter(first) == s.filter(second),
    decreases s.len(),
{
    reveal(Seq::filter);
    if s.len() > 0 {
        let rest = s.drop_last();
        assert forall|i: int| 0 <= i < rest.len() implies first(#[trigger] rest[i]) == second(
            rest[i],
        ) by {
            assert(rest[i] == s[i]);
        }
        lemma_filter_same_test(rest, first, second);
    }
}

proof fn lemma_same_members<A>(first: Seq<A>, second: Seq<A>, x: A)
    requires
        first.to_set() == second.to_set(),
    ensures
        first.contains(x) == second.contains(x),
{
    broadcast use vstd::set::group_set_axioms;

    assert(first.to_set().contains(x) == first.contains(x));
    assert(second.to_set().contains(x) == second.contains(x));
}

/// Whether the list names the entry.
pub fn names_entry(list: &Vec<IP>, ip: &IP) -> (r: bool)
    ensures
        r == list@.contains(*ip),
{
    let mut i: usize = 0;
    while i < list.len()
        invariant
            i <= list.len(),
            forall|j: int| 0 <= j < i ==> list@[j] != *ip,
        decreases list.len() - i,
    {
        if list[i] == *ip {
            return true;
        }
        i += 1;
    }
    false
}

/// Whether one of the networks holds the entry.
pub fn held_by_any(ip: &IP, networks: &Vec<IpNetwork>) -> (r: bool)
    ensures
        r == exists|j: int| 0 <= j < networks@.len() && ip.within(#[trigger] networks@[j]),
{
    let mut i: usize = 0;
    while i < networks.len()
        invariant
            i <= networks.len(),
            forall|j: int| 0 <= j < i ==> !ip.within(#[trigger] networks@[j]),
        decreases networks.len() - i,
    {
        if ip.is_within(&networks[i]) {
            return true;
        }
        i += 1;
    }
    false
}

/// The networks among the entries, in their order.
pub fn collect_networks(entries: &Vec<IP>) -> (r: Vec<IpNetwork>)
    ensures
        r@ == networks_of(entries@),
        forall|net: IpNetwork| #[trigger] r@.contains(net) <==> entries@.contains(IP::Network(net)),
{
    let ghost pick = |ip: IP|
        match ip {
            IP::Single(_) => None,
            IP::Network(net) => Some(net),
        };
    let mut networks: Vec<IpNetwork> = Vec::new();
    let mut i: usize = 0;
    while i < entries.len()
        invariant
            i <= entries.len(),
            pick == |ip: IP|
                match ip {
                    IP::Single(_) => None,
                    IP::Network(net) => Some(net),
                },
            networks@ == entries@.take(i as int).filter_map(pick),
            forall|net: IpNetwork| #[trigger]
                networks@.contains(net) <==> entries@.take(i as int).contains(IP::Network(net)),
        decreases entries.len() - i,
    {
        let ghost before = networks@;
        proof {
            assert(entries@.take(i + 1).drop_last() =~= entries@.take(i as int));
            assert(entries@.take(i + 1).last() == entries@[i as int]);
        }
        if let Some(net) = entries[i].as_network() {
            networks.push(*net);
        }
        proof {
            let grown = entries@.take(i + 1);
            let prior = entries@.take(i as int);
            assert forall|net: IpNetwork| #[trigger]
                networks@.contains(net) <==> grown.contains(IP::Network(net)) by {
                if networks@.contains(net) {
                    let k = choose|k: int| 0 <= k < networks@.len() && networks@[k] == net;
                    if k < before.len() {
                        assert(before[k] == net);
                        assert(before.contains(net));
                        let j = choose|j: int| 0 <= j < prior.len() && prior[j] == IP::Network(net);
                        assert(grown[j] == IP::Network(net));
                    } else {
                        assert(grown[i as int] == IP::Network(net));
                    }
                }
                if grown.contains(IP::Network(net)) {
                    let j = choose|j: int| 0 <= j < grown.len() && grown[j] == IP::Network(net);
                    if j < i {
                        assert(prior[j] == IP::Network(net));
                        assert(before.contains(net));
                        let k = choose|k: int| 0 <= k < before.len() && before[k] == net;
                        assert(networks@[k] == net);
                    } else {
                        assert(networks@[networks@.len() - 1] == net);
                    }
                }
            }
        }
        i += 1;
    }
    proof {
        assert(entries@.take(entries@.len() as int) =~= entries@);
    }
    networks
}

/// First pass: drops every entry that the exclusion list names.
pub fn remove_named(original: Vec<IP>, to_exclude: &Vec<IP>) -> (r: Vec<IP>)
    ensures
        r@ == original@.filter(not_named(to_exclude@)),
{
    let ghost test = not_named(to_exclude@);
    let mut remaining: Vec<IP> = Vec::new();
    let mut i: usize = 0;
    while i < original.len()
        invariant
            i <= original.len(),
            test == not_named(to_exclude@),
            remaining@ == original@.take(i as int).filter(test),
        decreases original.len() - i,
    {
        proof {
            lemma_filter_step(original@, i as int, test);
        }
        let ip = original[i];
        if !names_entry(to_exclude, &ip) {
            remaining.push(ip);
        }
        i += 1;
    }
    proof {
        assert(original@.take(original@.len() as int) =~= original@);
    }
    remaining
}

/// Second pass: drops every entry that a network of the exclusion list holds.
pub fn remove_contained(remaining: Vec<IP>, to_exclude: &Vec<IP>) -> (r: Vec<IP>)
    ensures
        r@ == remaining@.filter(not_contained(to_exclude@)),
{
    let ghost test = not_contained(to_exclude@);
    let subnets = collect_networks(to_exclude);
    if subnets.is_empty() {
        proof {
            assert forall|i: int| 0 <= i < remaining@.len() implies test(
                #[trigger] remaining@[i],
            ) by {
                let ip = remaining@[i];
                if in_excluded_network(ip, to_exclude@) {
                    let net = choose|net: IpNetwork| #[trigger]
                        to_exclude@.contains(IP::Network(net)) && ip.within(net);
                    assert(subnets@.contains(net));
                }
            }
            lemma_filter_of_passing(remaining@, test);
        }
        return remaining;
    }
    let mut outside: Vec<IP> = Vec::new();
    let mut i: usize = 0;
    while i < remaining.len()
        invariant
            i <= remaining.len(),
            test == not_contained(to_exclude@),
            forall|net: IpNetwork| #[trigger]
                subnets@.contains(net) <==> to_exclude@.contains(IP::Network(net)),
            outside@ == remaining@.take(i as int).filter(test),
        decreases remaining.len() - i,
    {
        proof {
            lemma_filter_step(remaining@, i as int, test);
        }
        let ip = remaining[i];
        let held = held_by_any(&ip, &subnets);
        proof {
            if held {
                let j = choose|j: int| 0 <= j < subnets@.len() && ip.within(#[trigger] subnets@[j]);
                assert(subnets@.contains(subnets@[j]));
                assert(to_exclude@.contains(IP::Network(subnets@[j])));
            }
            if in_excluded_network(ip, to_exclude@) {
                let net = choose|net: IpNetwork| #[trigger]
                    to_exclude@.contains(IP::Network(net)) && ip.within(net);
                assert(subnets@.contains(net));
                let j = choose|j: int| 0 <= j < subnets@.len() && subnets@[j] == net;
                assert(ip.within(subnets@[j]));
            }
            assert(held == in_excluded_network(ip, to_exclude@));
        }
        if !held {
            outside.push(ip);
        }
        i += 1;
    }
    proof {
        assert(remaining@.take(remaining@.len() as int) =~= remaining@);
    }
    outside
}

/// Removes from `original` what the exclusion list names and what its
/// networks hold. What is left keeps its order.
pub fn perform_filtering(original: Vec<IP>, to_exclude: &Vec<IP>) -> (r: Vec<IP>)
    ensures
        r@ == kept(original@, to_exclude@),
        forall|ip: IP| #[trigger]
            r@.contains(ip) <==> original@.contains(ip) && !is_excluded(ip, to_exclude@),
        original@.no_duplicates() ==> r@.no_duplicates(),
{
    let remaining = remove_named(original, to_exclude);
    let outside = remove_contained(remaining, to_exclude);
    proof {
        lemma_filter_twice(
            original@,
            not_named(to_exclude@),
            not_contained(to_exclude@),
            survives(to_exclude@),
        );
        lemma_filter_members(original@, survives(to_exclude@));
    }
    outside
}

/// Filtering what was already filtered by the same exclusion list changes nothing.
pub proof fn lemma_filtering_is_idempotent(original: Seq<IP>, excluded: Seq<IP>)
    ensures
        kept(kept(original, excluded), excluded) == kept(original, excluded),
{
    let once = kept(original, excluded);
    lemma_filter_members(original, survives(excluded));
    assert forall|i: int| 0 <= i < once.len() implies survives(excluded)(#[trigger] once[i]) by {
        assert(once.contains(once[i]));
    }
    lemma_filter_of_passing(once, survives(excluded));
}

/// An entry of the list that lies in a network of the exclusion list is
/// removed, whether it is an address or a network.
pub proof fn lemma_entry_in_excluded_network_is_removed(
    original: Seq<IP>,
    excluded: Seq<IP>,
    ip: IP,
    net: IpNetwork,
)
    requires
        excluded.contains(IP::Network(net)),
        ip.within(net),
    ensures
        !kept(original, excluded).contains(ip),
{
    lemma_filter_members(original, survives(excluded));
}

/// An entry of the list that the exclusion list neither names nor, in any of
/// its networks, holds is retained.
pub proof fn lemma_entry_outside_exclusions_is_retained(
    original: Seq<IP>,
    excluded: Seq<IP>,
    ip: IP,
)
    requires
        original.contains(ip),
        !excluded.contains(ip),
        forall|net: IpNetwork| #[trigger] excluded.contains(IP::Network(net)) ==> !ip.within(net),
    ensures
        kept(original, excluded).contains(ip),
{
    lemma_filter_members(original, survives(excluded));
}

/// A network never holds an address or a network of the other family, so an
/// exclusion list of one family leaves every entry of the other.
pub proof fn lemma_other_family_is_never_excluded(original: Seq<IP>, excluded: Seq<IP>, ip: IP)
    requires
        original.contains(ip),
        forall|i: int| 0 <= i < excluded.len() ==> !same_family(ip, #[trigger] excluded[i]),
    ensures
        kept(original, excluded).contains(ip),
{
    lemma_filter_members(original, survives(excluded));
    if excluded.contains(ip) {
        let i = choose|i: int| 0 <= i < excluded.len() && excluded[i] == ip;
        assert(!same_family(ip, excluded[i]));
    }
    if in_excluded_network(ip, excluded) {
        let net = choose|net: IpNetwork| #[trigger]
            excluded.contains(IP::Network(net)) && ip.within(net);
        let i = choose|i: int| 0 <= i < excluded.len() && excluded[i] == IP::Network(net);
        assert(!same_family(ip, excluded[i]));
    }
}

/// Both entries are of one IP family.
pub open spec fn same_family(a: IP, b: IP) -> bool {
    a.address().same_family(b.address())
}

/// The result does not depend on the order of the exclusion list, nor on
/// how often it names an entry: lists with the same entries exclude alike.
pub proof fn lemma_exclusion_ignores_order(original: Seq<IP>, first: Seq<IP>, second: Seq<IP>)
    requires
        first.to_set() == second.to_set(),
    ensures
        kept(original, first) == kept(original, second),
{
    assert forall|ip: IP| first.contains(ip) == second.contains(ip) by {
        lemma_same_members(first, second, ip);
    }
    assert forall|i: int| 0 <= i < original.len() implies survives(first)(#[trigger] original[i])
        == survives(second)(original[i]) by {
        let ip = original[i];
        if in_excluded_network(ip, first) {
            let net = choose|net: IpNetwork| #[trigger]
                first.contains(IP::Network(net)) && ip.within(net);
            assert(second.contains(IP::Network(net)));
        }
        if in_excluded_network(ip, second) {
            let net = choose|net: IpNetwork| #[trigger]
                second.contains(IP::Network(net)) && ip.within(net);
            assert(first.contains(IP::Network(net)));
        }
    }
    lemma_filter_same_test(original, survives(first), survives(second));
}

/// The entries that are left do not depend on the order of the list either:
/// lists with the same entries are left with the same entries.
pub proof fn lemma_kept_entries_ignore_order(first: Seq<IP>, second: Seq<IP>, excluded: Seq<IP>)
    requires
        first.to_set() == second.to_set(),
    ensures
        kept(first, excluded).to_set() == kept(second, excluded).to_set(),
{
    lemma_filter_members(first, survives(excluded));
    lemma_filter_members(second, survives(excluded));
    assert forall|ip: IP| first.contains(ip) == second.contains(ip) by {
        lemma_same_members(first, second, ip);
    }
    assert(kept(first, excluded).to_set() =~= kept(second, excluded).to_set());
}

} // verus!
